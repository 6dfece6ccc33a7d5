//! From source text to tokens: lines, indentation levels and the tokens of each line.
use vstd::prelude::*;
use crate::scan::{lemma_scan_numerals, literals, scan, scan_line, literal_table, table_view, spelled_only, unspelled, lemma_scan_spelled_only, lemma_spelling_scans_alone, lemma_identifier_scans_alone, ident_len, ident_run, is_ident_char, is_ident_start, cn_run, ident_kind, builtin_name};
use crate::text::{chars_of, find_char, index_of, lemma_index_of_bounds, sub_vec, seqs_view};
use crate::chinese_to_digits::convertible;
use crate::token::{Token, LexKind, TokView, toks_view, lemma_toks_view_push, lex_kind};

verus! {

/// The end of the line that starts at `i`: the position of the next `\n`, or the end.
pub open spec fn line_end(s: Seq<char>, i: int) -> int {
    i + index_of(s.subrange(i, s.len() as int), '\n')
}

/// The lines of `s` from position `i` on, as `str::lines` splits them: at each `\n`, with a
/// `\r` just before the `\n` dropped; a last line without `\n` is kept whole, and nothing
/// after a final `\n` makes a line.
pub open spec fn lines_from(s: Seq<char>, i: int) -> Seq<Seq<char>>
    decreases s.len() - i,
{
    if !(0 <= i < s.len()) {
        Seq::empty()
    } else {
        let k = line_end(s, i);
        if i <= k < s.len() {
            let raw = s.subrange(i, k);
            let line = if raw.len() > 0 && raw.last() == '\r' {
                raw.drop_last()
            } else {
                raw
            };
            seq![line] + lines_from(s, k + 1)
        } else {
            seq![s.subrange(i, s.len() as int)]
        }
    }
}

/// The lines of a text.
pub open spec fn lines_of(s: Seq<char>) -> Seq<Seq<char>> {
    lines_from(s, 0)
}

/// `char::is_whitespace`: the characters with the Unicode `White_Space` property.
pub open spec fn is_white_space(c: char) -> bool {
    ('\u{9}' <= c && c <= '\u{d}') || c == ' ' || c == '\u{85}' || c == '\u{a0}' || c == '\u{1680}'
        || ('\u{2000}' <= c && c <= '\u{200a}') || c == '\u{2028}' || c == '\u{2029}' || c == '\u{202f}'
        || c == '\u{205f}' || c == '\u{3000}'
}

/// The number of white-space characters at `i` (those that `str::trim_start` removes).
pub open spec fn ws_run(s: Seq<char>, i: int) -> int
    decreases s.len() - i,
{
    if 0 <= i < s.len() && is_white_space(s[i]) {
        1 + ws_run(s, i + 1)
    } else {
        0
    }
}

/// A line without its leading white space.
pub open spec fn trim_start(s: Seq<char>) -> Seq<char> {
    s.subrange(ws_run(s, 0), s.len() as int)
}

/// The indentation width from `i`: a space counts 1 and a tab 8, up to the first other
/// character.
pub open spec fn indent_width(s: Seq<char>, i: int) -> int
    decreases s.len() - i,
{
    if 0 <= i < s.len() && s[i] == ' ' {
        1 + indent_width(s, i + 1)
    } else if 0 <= i < s.len() && s[i] == '\t' {
        8 + indent_width(s, i + 1)
    } else {
        0
    }
}

/// The token that opens an indentation level.
pub open spec fn indent_tok() -> TokView {
    (LexKind::Plain(Token::Indent), "<INDENT>"@)
}

/// The token that closes an indentation level.
pub open spec fn dedent_tok() -> TokView {
    (LexKind::Plain(Token::Dedent), "<DEDENT>"@)
}

/// The token that ends a line.
pub open spec fn newline_tok() -> TokView {
    (LexKind::Plain(Token::Newline), "\n"@)
}

/// `n` dedent tokens.
pub open spec fn dedents(n: int) -> Seq<TokView> {
    Seq::new(if n > 0 { n as nat } else { 0 }, |j: int| dedent_tok())
}

/// Closing the open levels deeper than `width`: the dedent tokens and the levels left.
pub open spec fn close_levels(levels: Seq<int>, width: int) -> (Seq<TokView>, Seq<int>)
    decreases levels.len(),
{
    if levels.len() > 0 && width < levels.last() {
        let (d, rest) = close_levels(levels.drop_last(), width);
        (seq![dedent_tok()] + d, rest)
    } else {
        (Seq::empty(), levels)
    }
}

/// The indentation tokens of a code line of width `width`, and the levels after it: a
/// deeper line opens one level, a shallower one closes every level deeper than it.
pub open spec fn indent_step(levels: Seq<int>, width: int) -> (Seq<TokView>, Seq<int>) {
    if width > levels.last() {
        (seq![indent_tok()], levels.push(width))
    } else if width < levels.last() {
        close_levels(levels, width)
    } else {
        (Seq::empty(), levels)
    }
}

/// What one line yields, with the levels and the pending-newline flag after it. A blank
/// line or a comment line yields nothing and leaves a newline pending, which goes before
/// the first token of the next line that has one. A code line yields its indentation
/// tokens, the pending newline, its tokens and a newline.
pub open spec fn line_step(line: Seq<char>, levels: Seq<int>, pending: bool) -> (Seq<TokView>, Seq<int>, bool) {
    let t = trim_start(line);
    if t.len() == 0 || t[0] == '#' {
        (Seq::empty(), levels, true)
    } else {
        let (ind, levels2) = indent_step(levels, indent_width(line, 0));
        let toks = scan(t, 0);
        let lead = if pending && toks.len() > 0 {
            seq![newline_tok()]
        } else {
            Seq::empty()
        };
        (ind + lead + toks + seq![newline_tok()], levels2, pending && toks.len() == 0)
    }
}

/// The tokens of the lines from `i` on, from the state before line `i`; at the end every
/// open level is closed.
pub open spec fn lex_lines(lines: Seq<Seq<char>>, i: int, levels: Seq<int>, pending: bool) -> Seq<TokView>
    decreases lines.len() - i,
{
    if !(0 <= i < lines.len()) {
        dedents(levels.len() - 1)
    } else {
        let st = line_step(lines[i], levels, pending);
        st.0 + lex_lines(lines, i + 1, st.1, st.2)
    }
}

/// The token views of a source text.
pub open spec fn lex_spec(code: Seq<char>) -> Seq<TokView> {
    lex_lines(lines_of(code), 0, seq![0int], false)
}

/// A sequence of token views without indentation tokens.
pub open spec fn layout_free(s: Seq<TokView>) -> bool {
    forall|j: int| 0 <= j < s.len() ==> #[trigger] s[j].0 != LexKind::Plain(Token::Indent) && s[j].0
        != LexKind::Plain(Token::Dedent)
}

/// The indentation depth of a token sequence: its indents less its dedents.
pub open spec fn depth(s: Seq<TokView>) -> int
    decreases s.len(),
{
    if s.len() == 0 {
        0
    } else {
        depth(s.drop_last()) + if s.last() == indent_tok() {
            1int
        } else if s.last() == dedent_tok() {
            -1int
        } else {
            0int
        }
    }
}

/// After `base` open levels, no prefix of `s` closes more levels than are open.
pub open spec fn never_below(s: Seq<TokView>, base: int) -> bool {
    forall|i: int| 0 <= i <= s.len() ==> base + #[trigger] depth(s.take(i)) >= 0
}

proof fn lemma_depth_concat(a: Seq<TokView>, b: Seq<TokView>)
    ensures
        depth(a + b) == depth(a) + depth(b),
    decreases b.len(),
{
    if b.len() == 0 {
        assert(a + b =~= a);
    } else {
        lemma_depth_concat(a, b.drop_last());
        assert((a + b).drop_last() =~= a + b.drop_last());
    }
}

proof fn lemma_never_below_concat(a: Seq<TokView>, b: Seq<TokView>, base: int)
    requires
        never_below(a, base),
        never_below(b, base + depth(a)),
    ensures
        never_below(a + b, base),
{
    assert forall|i: int| 0 <= i <= (a + b).len() implies base + #[trigger] depth((a + b).take(i)) >= 0 by {
        if i <= a.len() {
            assert((a + b).take(i) =~= a.take(i));
        } else {
            assert((a + b).take(i) =~= a + b.take(i - a.len()));
            lemma_depth_concat(a, b.take(i - a.len()));
            assert(a.take(a.len() as int) =~= a);
            assert(base + depth(a) + depth(b.take(i - a.len())) >= 0);
        }
    }
}

proof fn lemma_layout_free_depth(s: Seq<TokView>, base: int)
    requires
        layout_free(s),
        base >= 0,
    ensures
        depth(s) == 0,
        never_below(s, base),
    decreases s.len(),
{
    if s.len() > 0 {
        let j = s.len() - 1;
        assert(s[j].0 != LexKind::Plain(Token::Indent) && s[j].0 != LexKind::Plain(Token::Dedent));
        assert(s.last() != indent_tok() && s.last() != dedent_tok());
        assert(layout_free(s.drop_last())) by {
            assert forall|k: int| 0 <= k < s.drop_last().len() implies #[trigger] s.drop_last()[k].0
                != LexKind::Plain(Token::Indent) && s.drop_last()[k].0 != LexKind::Plain(Token::Dedent) by {
                assert(s.drop_last()[k] == s[k]);
                assert(s[k].0 != LexKind::Plain(Token::Indent) && s[k].0 != LexKind::Plain(Token::Dedent));
            }
        }
        lemma_layout_free_depth(s.drop_last(), base);
    }
    assert forall|i: int| 0 <= i <= s.len() implies base + #[trigger] depth(s.take(i)) >= 0 by {
        if i < s.len() {
            assert(layout_free(s.take(i))) by {
                assert forall|k: int| 0 <= k < s.take(i).len() implies #[trigger] s.take(i)[k].0
                    != LexKind::Plain(Token::Indent) && s.take(i)[k].0 != LexKind::Plain(Token::Dedent) by {
                    assert(s.take(i)[k] == s[k]);
                    assert(s[k].0 != LexKind::Plain(Token::Indent) && s[k].0 != LexKind::Plain(Token::Dedent));
                }
            }
            lemma_layout_free_depth(s.take(i), base);
        } else {
            assert(s.take(i) =~= s);
        }
    }
}

/// A run of `n` dedents lowers the depth by one at each step.
proof fn lemma_dedents_depth(n: int)
    requires
        n >= 0,
    ensures
        forall|i: int| 0 <= i <= n ==> #[trigger] depth(dedents(n).take(i)) == -i,
    decreases n,
{
    if n > 0 {
        lemma_dedents_depth(n - 1);
        assert forall|i: int| 0 <= i <= n implies #[trigger] depth(dedents(n).take(i)) == -i by {
            if i < n {
                assert(dedents(n).take(i) =~= dedents(n - 1).take(i));
            } else {
                let x = dedents(n).take(i);
                assert(x.drop_last() =~= dedents(n - 1).take(n - 1));
                assert(x.last() == dedent_tok());
                assert(depth(dedents(n - 1).take(n - 1)) == -(n - 1));
                assert(depth(x) == depth(x.drop_last()) - 1);
            }
        }
    } else {
        assert(dedents(n).take(0) =~= Seq::<TokView>::empty());
    }
}

proof fn lemma_indent_width_nonneg(s: Seq<char>, i: int)
    ensures
        indent_width(s, i) >= 0,
    decreases s.len() - i,
{
    if 0 <= i < s.len() && (s[i] == ' ' || s[i] == '\t') {
        lemma_indent_width_nonneg(s, i + 1);
    }
}

/// Closing levels down to `width` pops some of the levels above the outermost one and
/// yields one dedent for each.
proof fn lemma_close_levels(levels: Seq<int>, width: int)
    requires
        levels.len() >= 1,
        levels[0] <= width,
    ensures
        close_levels(levels, width).1.len() >= 1,
        close_levels(levels, width).1.len() <= levels.len(),
        close_levels(levels, width).1 == levels.take(close_levels(levels, width).1.len() as int),
        close_levels(levels, width).0 == dedents(levels.len() - close_levels(levels, width).1.len()),
    decreases levels.len(),
{
    if levels.len() > 0 && width < levels.last() {
        assert(levels.len() > 1);
        lemma_close_levels(levels.drop_last(), width);
        let (d, rest) = close_levels(levels.drop_last(), width);
        assert(levels.drop_last().take(rest.len() as int) =~= levels.take(rest.len() as int));
        assert(seq![dedent_tok()] + d =~= dedents(levels.len() - rest.len()));
    } else {
        assert(levels.take(levels.len() as int) =~= levels);
        assert(dedents(0) =~= Seq::<TokView>::empty());
    }
}

/// One line keeps the levels well formed, changes the depth by the change in the number
/// of open levels, and never closes a level that is not open.
proof fn lemma_line_step_layout(line: Seq<char>, levels: Seq<int>, pending: bool)
    requires
        levels.len() >= 1,
        levels[0] == 0,
    ensures
        line_step(line, levels, pending).1.len() >= 1,
        line_step(line, levels, pending).1[0] == 0,
        depth(line_step(line, levels, pending).0) == line_step(line, levels, pending).1.len() - levels.len(),
        never_below(line_step(line, levels, pending).0, levels.len() - 1),
{
    let t = trim_start(line);
    let st = line_step(line, levels, pending);
    if t.len() == 0 || t[0] == '#' {
        lemma_layout_free_depth(st.0, levels.len() - 1);
    } else {
        let w = indent_width(line, 0);
        lemma_indent_width_nonneg(line, 0);
        let (ind, levels2) = indent_step(levels, w);
        let toks = scan(t, 0);
        let lead = if pending && toks.len() > 0 {
            seq![newline_tok()]
        } else {
            Seq::empty()
        };
        let tail = lead + toks + seq![newline_tok()];
        lemma_scan_spelled_only(t, 0);
        assert(layout_free(tail)) by {
            assert forall|j: int| 0 <= j < tail.len() implies #[trigger] tail[j].0 != LexKind::Plain(Token::Indent)
                && tail[j].0 != LexKind::Plain(Token::Dedent) by {
                if j < lead.len() {
                    assert(tail[j] == lead[j]);
                } else if j < lead.len() + toks.len() {
                    assert(tail[j] == toks[j - lead.len()]);
                    assert(!unspelled(toks[j - lead.len()].0));
                } else {
                    assert(tail[j] == newline_tok());
                }
            }
        }
        assert(st.0 =~= ind + tail);
        if w > levels.last() {
            assert(depth(ind) == 1) by {
                assert(ind.drop_last() =~= Seq::<TokView>::empty());
                reveal_with_fuel(depth, 2);
            }
            assert(never_below(ind, levels.len() - 1)) by {
                assert forall|i: int| 0 <= i <= ind.len() implies levels.len() - 1 + #[trigger] depth(ind.take(i)) >= 0 by {
                    if i == 0 {
                        assert(ind.take(i) =~= Seq::<TokView>::empty());
                    } else {
                        assert(ind.take(i) =~= ind);
                    }
                }
            }
        } else if w < levels.last() {
            lemma_close_levels(levels, w);
            let m = levels.len() - levels2.len();
            lemma_dedents_depth(m);
            assert(ind.take(ind.len() as int) =~= ind);
            assert(levels2[0] == levels[0]);
        } else {
            assert(depth(ind) == 0);
            assert(never_below(ind, levels.len() - 1)) by {
                assert forall|i: int| 0 <= i <= ind.len() implies levels.len() - 1 + #[trigger] depth(ind.take(i)) >= 0 by {
                    assert(ind.take(i) =~= Seq::<TokView>::empty());
                }
            }
        }
        lemma_layout_free_depth(tail, levels2.len() - 1);
        lemma_depth_concat(ind, tail);
        lemma_never_below_concat(ind, tail, levels.len() - 1);
    }
}

proof fn lemma_lex_lines_layout(lines: Seq<Seq<char>>, i: int, levels: Seq<int>, pending: bool)
    requires
        levels.len() >= 1,
        levels[0] == 0,
    ensures
        depth(lex_lines(lines, i, levels, pending)) == -(levels.len() - 1),
        never_below(lex_lines(lines, i, levels, pending), levels.len() - 1),
    decreases lines.len() - i,
{
    if !(0 <= i < lines.len()) {
        let n = levels.len() - 1;
        lemma_dedents_depth(n);
        assert(dedents(n).take(n) =~= dedents(n));
    } else {
        let st = line_step(lines[i], levels, pending);
        lemma_line_step_layout(lines[i], levels, pending);
        lemma_lex_lines_layout(lines, i + 1, st.1, st.2);
        let rest = lex_lines(lines, i + 1, st.1, st.2);
        lemma_depth_concat(st.0, rest);
        lemma_never_below_concat(st.0, rest, levels.len() - 1);
    }
}

/// The lexer's indentation tokens nest: no prefix of its output closes more levels than
/// it has opened, and the whole output closes every level that it opens.
pub proof fn lemma_layout_nests(code: Seq<char>)
    ensures
        depth(lex_spec(code)) == 0,
        never_below(lex_spec(code), 0),
{
    lemma_lex_lines_layout(lines_of(code), 0, seq![0int], false);
}

/// No token of a sequence is an error token, and a Chinese numeral is left unconverted only
/// where it is outside the range in which the converter is known to work.
pub open spec fn raw_only_out_of_range(s: Seq<TokView>) -> bool {
    forall|j: int| 0 <= j < s.len() ==> #[trigger] s[j].0 != LexKind::Plain(Token::Error) && (s[j].0
        == LexKind::Plain(Token::ChineseNumber) ==> !convertible(s[j].1))
}

proof fn lemma_no_raw_concat(a: Seq<TokView>, b: Seq<TokView>)
    requires
        raw_only_out_of_range(a),
        raw_only_out_of_range(b),
    ensures
        raw_only_out_of_range(a + b),
{
    assert forall|j: int| 0 <= j < (a + b).len() implies #[trigger] (a + b)[j].0 != LexKind::Plain(Token::Error) && ((a
        + b)[j].0 == LexKind::Plain(Token::ChineseNumber) ==> !convertible((a + b)[j].1)) by {
        if j < a.len() {
            assert((a + b)[j] == a[j]);
        } else {
            assert((a + b)[j] == b[j - a.len()]);
        }
    }
}

proof fn lemma_close_levels_no_raw(levels: Seq<int>, width: int)
    ensures
        raw_only_out_of_range(close_levels(levels, width).0),
    decreases levels.len(),
{
    if levels.len() > 0 && width < levels.last() {
        lemma_close_levels_no_raw(levels.drop_last(), width);
        lemma_no_raw_concat(seq![dedent_tok()], close_levels(levels.drop_last(), width).0);
    }
}

proof fn lemma_lex_lines_no_raw(lines: Seq<Seq<char>>, i: int, levels: Seq<int>, pending: bool)
    ensures
        raw_only_out_of_range(lex_lines(lines, i, levels, pending)),
    decreases lines.len() - i,
{
    if 0 <= i < lines.len() {
        let line = lines[i];
        let t = trim_start(line);
        let st = line_step(line, levels, pending);
        if !(t.len() == 0 || t[0] == '#') {
            let w = indent_width(line, 0);
            let ind = indent_step(levels, w).0;
            let toks = scan(t, 0);
            let lead = if pending && toks.len() > 0 {
                seq![newline_tok()]
            } else {
                Seq::empty()
            };
            lemma_close_levels_no_raw(levels, w);
            lemma_scan_spelled_only(t, 0);
            lemma_scan_numerals(t, 0);
            assert(raw_only_out_of_range(toks)) by {
                assert forall|j: int| 0 <= j < toks.len() implies #[trigger] toks[j].0 != LexKind::Plain(Token::Error) && (
                toks[j].0 == LexKind::Plain(Token::ChineseNumber) ==> !convertible(toks[j].1)) by {
                    assert(!unspelled(toks[j].0));
                }
            }
            lemma_no_raw_concat(ind, lead);
            lemma_no_raw_concat(ind + lead, toks);
            lemma_no_raw_concat(ind + lead + toks, seq![newline_tok()]);
        }
        lemma_lex_lines_no_raw(lines, i + 1, st.1, st.2);
        lemma_no_raw_concat(st.0, lex_lines(lines, i + 1, st.1, st.2));
    }
}

/// The lexer never yields an error token (text that no pattern matches is skipped), and
/// yields a Chinese numeral unconverted only where the numeral is outside the range in which
/// the converter is known to work: every other numeral becomes a number.
pub proof fn lemma_raw_only_out_of_range(code: Seq<char>)
    ensures
        raw_only_out_of_range(lex_spec(code)),
{
    lemma_lex_lines_no_raw(lines_of(code), 0, seq![0int], false);
}

/// Whether every character of `s` is a space or a tab.
pub open spec fn all_blanks(s: Seq<char>) -> bool {
    forall|i: int| 0 <= i < s.len() ==> #[trigger] s[i] == ' ' || s[i] == '\t'
}

proof fn lemma_ws_run_bound(s: Seq<char>, i: int)
    requires
        0 <= i <= s.len(),
    ensures
        0 <= ws_run(s, i) <= s.len() - i,
    decreases s.len() - i,
{
    if i < s.len() {
        lemma_ws_run_bound(s, i + 1);
    }
}

proof fn lemma_width_shift(a: Seq<char>, b: Seq<char>, j: int)
    requires
        0 <= j <= b.len(),
    ensures
        indent_width(a + b, a.len() + j) == indent_width(b, j),
        ws_run(a + b, a.len() + j) == ws_run(b, j),
    decreases b.len() - j,
{
    if j < b.len() {
        assert((a + b)[a.len() + j] == b[j]);
        lemma_width_shift(a, b, j + 1);
    }
}

proof fn lemma_width_concat(a: Seq<char>, b: Seq<char>, i: int)
    requires
        all_blanks(a),
        0 <= i <= a.len(),
    ensures
        indent_width(a + b, i) == indent_width(a, i) + indent_width(b, 0),
        ws_run(a + b, i) == (a.len() - i) + ws_run(b, 0),
    decreases a.len() - i,
{
    if i < a.len() {
        assert((a + b)[i] == a[i]);
        assert(a[i] == ' ' || a[i] == '\t');
        lemma_width_concat(a, b, i + 1);
    } else {
        lemma_width_shift(a, b, 0);
    }
}

/// The tokens and the levels that a line leaves depend on its leading blanks only through
/// their width: a tab among them counts as eight spaces.
pub proof fn lemma_tab_is_eight_spaces(pre: Seq<char>, rest: Seq<char>, levels: Seq<int>, pending: bool)
    requires
        all_blanks(pre),
    ensures
        line_step(pre + "\t"@ + rest, levels, pending) == line_step(pre + "        "@ + rest, levels, pending),
{
    reveal_strlit("\t");
    reveal_strlit("        ");
    let tab = "\t"@;
    let spaces = "        "@;
    let a1 = pre + tab;
    let a2 = pre + spaces;
    assert(all_blanks(a1));
    assert(all_blanks(a2));
    assert(pre + tab + rest == a1 + rest);
    assert(pre + spaces + rest == a2 + rest);
    lemma_width_concat(a1, rest, 0);
    lemma_width_concat(a2, rest, 0);
    lemma_width_concat(pre, tab, 0);
    lemma_width_concat(pre, spaces, 0);
    assert(indent_width(tab, 0) == 8) by {
        reveal_with_fuel(indent_width, 2);
    }
    assert(indent_width(spaces, 0) == 8) by {
        reveal_with_fuel(indent_width, 9);
    }
    let l1 = a1 + rest;
    let l2 = a2 + rest;
    lemma_ws_run_bound(rest, 0);
    assert(trim_start(l1) =~= rest.subrange(ws_run(rest, 0), rest.len() as int)) by {
        assert(ws_run(l1, 0) == a1.len() + ws_run(rest, 0));
    }
    assert(trim_start(l2) =~= rest.subrange(ws_run(rest, 0), rest.len() as int)) by {
        assert(ws_run(l2, 0) == a2.len() + ws_run(rest, 0));
    }
    assert(indent_width(l1, 0) == indent_width(l2, 0));
}

/// Lines that each yield what the other's line yields give the same tokens.
proof fn lemma_lex_lines_same(l1: Seq<Seq<char>>, l2: Seq<Seq<char>>, i: int, levels: Seq<int>, pending: bool)
    requires
        l1.len() == l2.len(),
        forall|k: int, lv: Seq<int>, pd: bool| 0 <= k < l1.len() ==> #[trigger] line_step(l1[k], lv, pd)
            == line_step(l2[k], lv, pd),
    ensures
        lex_lines(l1, i, levels, pending) == lex_lines(l2, i, levels, pending),
    decreases l1.len() - i,
{
    if 0 <= i < l1.len() {
        let st = line_step(l1[i], levels, pending);
        lemma_lex_lines_same(l1, l2, i + 1, st.1, st.2);
    }
}

/// A tab among the leading blanks of any line of a text counts as eight spaces: the lexer
/// yields the same tokens for the text's lines either way.
proof fn lemma_lex_tab_is_eight_spaces(lines: Seq<Seq<char>>, i: int, pre: Seq<char>, rest: Seq<char>)
    requires
        0 <= i < lines.len(),
        all_blanks(pre),
    ensures
        lex_lines(lines.update(i, pre + "\t"@ + rest), 0, seq![0int], false)
            == lex_lines(lines.update(i, pre + "        "@ + rest), 0, seq![0int], false),
{
    let l1 = lines.update(i, pre + "\t"@ + rest);
    let l2 = lines.update(i, pre + "        "@ + rest);
    assert forall|k: int, lv: Seq<int>, pd: bool| 0 <= k < l1.len() implies #[trigger] line_step(l1[k], lv, pd)
        == line_step(l2[k], lv, pd) by {
        if k == i {
            lemma_tab_is_eight_spaces(pre, rest, lv, pd);
        }
    }
    lemma_lex_lines_same(l1, l2, 0, seq![0int], false);
}

/// The lines from `i` on are the lines of the text from `i` on.
proof fn lemma_lines_from_suffix(s: Seq<char>, i: int)
    requires
        0 <= i <= s.len(),
    ensures
        lines_from(s, i) == lines_from(s.subrange(i, s.len() as int), 0),
    decreases s.len() - i,
{
    let t = s.subrange(i, s.len() as int);
    if i < s.len() {
        assert(t.subrange(0, t.len() as int) =~= t);
        lemma_index_of_bounds(t, '\n');
        let d = index_of(t, '\n');
        let k = i + d;
        assert(line_end(s, i) == k);
        assert(line_end(t, 0) == d);
        if d < t.len() {
            assert(s.subrange(i, k) =~= t.subrange(0, d));
            lemma_lines_from_suffix(s, k + 1);
            lemma_lines_from_suffix(t, d + 1);
            assert(s.subrange(k + 1, s.len() as int) =~= t.subrange(d + 1, t.len() as int));
        }
    }
}

/// The lines of a text whose first part ends a line are the lines of that part followed by
/// the lines of the rest.
proof fn lemma_lines_prefix(x: Seq<char>, z: Seq<char>)
    requires
        x.len() == 0 || x.last() == '\n',
    ensures
        lines_from(x + z, 0) == lines_from(x, 0) + lines_from(z, 0),
    decreases x.len(),
{
    let s = x + z;
    if x.len() == 0 {
        assert(s =~= z);
        assert(lines_from(x, 0) + lines_from(z, 0) =~= lines_from(z, 0));
    } else {
        assert(s.subrange(0, s.len() as int) =~= s);
        assert(x.subrange(0, x.len() as int) =~= x);
        lemma_index_of_bounds(x, '\n');
        lemma_index_of_bounds(s, '\n');
        let d = index_of(x, '\n');
        assert(x[x.len() - 1] == '\n');
        assert(d < x.len());
        let e = index_of(s, '\n');
        assert(s[d] == x[d]);
        if e < d {
            assert(s[e] == x[e]);
        }
        assert(e == d);
        assert(line_end(s, 0) == d);
        assert(line_end(x, 0) == d);
        assert(s.subrange(0, d) =~= x.subrange(0, d));
        let x2 = x.subrange(d + 1, x.len() as int);
        lemma_lines_from_suffix(s, d + 1);
        lemma_lines_from_suffix(x, d + 1);
        assert(s.subrange(d + 1, s.len() as int) =~= x2 + z);
        if x2.len() > 0 {
            assert(x2.last() == x.last());
        }
        lemma_lines_prefix(x2, z);
        let first = lines_from(x, 0)[0];
        assert(lines_from(s, 0) == seq![first] + lines_from(x2 + z, 0));
        assert(lines_from(x, 0) == seq![first] + lines_from(x2, 0));
        assert(lines_from(s, 0) =~= lines_from(x, 0) + lines_from(z, 0));
    }
}

/// The line that a one-line text `m` makes when `y` follows it: a `\r` at its end is dropped
/// only when a line break follows.
spec fn line_before(m: Seq<char>, y: Seq<char>) -> Seq<char> {
    if y.len() > 0 && m.len() > 0 && m.last() == '\r' {
        m.drop_last()
    } else {
        m
    }
}

/// The lines after that line.
spec fn lines_after(y: Seq<char>) -> Seq<Seq<char>> {
    if y.len() == 0 {
        Seq::empty()
    } else {
        lines_from(y, 1)
    }
}

/// A text without a line break, followed by nothing or by a line break and more, makes one
/// line and then the lines after the break.
proof fn lemma_lines_mid(m: Seq<char>, y: Seq<char>)
    requires
        m.len() > 0,
        forall|i: int| 0 <= i < m.len() ==> m[i] != '\n',
        y.len() == 0 || y[0] == '\n',
    ensures
        lines_from(m + y, 0) == seq![line_before(m, y)] + lines_after(y),
{
    let s = m + y;
    assert(s.subrange(0, s.len() as int) =~= s);
    lemma_index_of_bounds(s, '\n');
    let e = index_of(s, '\n');
    if e < m.len() {
        assert(s[e] == m[e]);
    }
    if y.len() == 0 {
        assert(s =~= m);
        assert(e == m.len());
        assert(s.subrange(0, s.len() as int) =~= m);
        assert(lines_from(s, 0) =~= seq![m]);
        assert(seq![line_before(m, y)] + lines_after(y) =~= seq![m]);
    } else {
        assert(s[m.len() as int] == y[0]);
        assert(e == m.len());
        assert(s.subrange(0, m.len() as int) =~= m);
        lemma_lines_from_suffix(s, m.len() + 1int);
        lemma_lines_from_suffix(y, 1);
        assert(s.subrange(m.len() + 1int, s.len() as int) =~= y.subrange(1, y.len() as int));
    }
}

/// A tab among the leading blanks of a line counts as eight spaces: replacing it by eight
/// spaces, anywhere in a text, leaves the lexer's tokens unchanged.
pub proof fn lemma_text_tab_is_eight_spaces(x: Seq<char>, pre: Seq<char>, rest: Seq<char>, y: Seq<char>)
    requires
        x.len() == 0 || x.last() == '\n',
        all_blanks(pre),
        forall|i: int| 0 <= i < rest.len() ==> rest[i] != '\n',
        y.len() == 0 || y[0] == '\n',
    ensures
        lex_spec(x + pre + "\t"@ + rest + y) == lex_spec(x + pre + "        "@ + rest + y),
{
    reveal_strlit("\t");
    reveal_strlit("        ");
    let tab = "\t"@;
    let sp = "        "@;
    let m1 = pre + tab + rest;
    let m2 = pre + sp + rest;
    assert forall|i: int| 0 <= i < m1.len() implies m1[i] != '\n' by {
        if i < pre.len() {
            assert(m1[i] == pre[i]);
        } else if i == pre.len() {
            assert(m1[i] == '\t');
        } else {
            assert(m1[i] == rest[i - pre.len() - 1]);
        }
    }
    assert forall|i: int| 0 <= i < m2.len() implies m2[i] != '\n' by {
        if i < pre.len() {
            assert(m2[i] == pre[i]);
        } else if i < pre.len() + 8 {
            assert(m2[i] == ' ');
        } else {
            assert(m2[i] == rest[i - pre.len() - 8]);
        }
    }
    lemma_lines_mid(m1, y);
    lemma_lines_mid(m2, y);
    lemma_lines_prefix(x, m1 + y);
    lemma_lines_prefix(x, m2 + y);
    assert(x + pre + tab + rest + y =~= x + (m1 + y));
    assert(x + pre + sp + rest + y =~= x + (m2 + y));
    let r2 = if y.len() > 0 && rest.len() > 0 && rest.last() == '\r' {
        rest.drop_last()
    } else {
        rest
    };
    assert forall|i: int| 0 <= i < r2.len() implies r2[i] != '\n' by {
        assert(r2[i] == rest[i]);
    }
    if rest.len() > 0 {
        assert(m1.last() == rest.last());
        assert(m2.last() == rest.last());
    } else {
        assert(m1.last() == '\t');
        assert(m2.last() == ' ');
    }
    assert(line_before(m1, y) =~= pre + tab + r2);
    assert(line_before(m2, y) =~= pre + sp + r2);
    let lx = lines_from(x, 0);
    let la = lines_after(y);
    let lines = lx + seq![pre + tab + r2] + la;
    let i = lx.len() as int;
    lemma_lex_tab_is_eight_spaces(lines, i, pre, r2);
    assert(lines.update(i, pre + tab + r2) =~= lines_of(x + pre + tab + rest + y));
    assert(lines.update(i, pre + sp + r2) =~= lines_of(x + pre + sp + rest + y));
}

/// The lines of a text, as `str::lines` splits them.
fn split_lines(v: &Vec<char>) -> (r: Vec<Vec<char>>)
    requires
        v@.len() < usize::MAX,
    ensures
        seqs_view(r@) == lines_of(v@),
        forall|j: int| 0 <= j < r@.len() ==> #[trigger] r@[j]@.len() <= v@.len(),
{
    let mut r: Vec<Vec<char>> = Vec::new();
    let mut i: usize = 0;
    while i < v.len()
        invariant
            i <= v@.len() < usize::MAX,
            seqs_view(r@) + lines_from(v@, i as int) == lines_of(v@),
            forall|j: int| 0 <= j < r@.len() ==> #[trigger] r@[j]@.len() <= v@.len(),
        decreases v@.len() - i,
    {
        let ghost before = seqs_view(r@);
        let k = find_char(v, i, '\n');
        proof {
            lemma_index_of_bounds(v@.subrange(i as int, v@.len() as int), '\n');
        }
        if k < v.len() {
            let mut hi = k;
            if k > i && v[k - 1] == '\r' {
                hi = k - 1;
            }
            let line = sub_vec(v, i, hi);
            proof {
                let raw = v@.subrange(i as int, k as int);
                if raw.len() > 0 && raw.last() == '\r' {
                    assert(line@ =~= raw.drop_last());
                } else {
                    assert(line@ =~= raw);
                }
            }
            r.push(line);
            assert(seqs_view(r@) =~= before.push(line@));
            assert(seqs_view(r@) + lines_from(v@, k + 1) =~= before + lines_from(v@, i as int));
            i = k + 1;
        } else {
            let line = sub_vec(v, i, v.len());
            r.push(line);
            assert(seqs_view(r@) =~= before.push(line@));
            assert(seqs_view(r@) + lines_from(v@, v@.len() as int) =~= before + lines_from(v@, i as int));
            i = v.len();
        }
    }
    assert(seqs_view(r@) =~= seqs_view(r@) + lines_from(v@, i as int));
    r
}

fn is_white_space_exec(c: char) -> (b: bool)
    ensures
        b == is_white_space(c),
{
    ('\u{9}' <= c && c <= '\u{d}') || c == ' ' || c == '\u{85}' || c == '\u{a0}' || c == '\u{1680}'
        || ('\u{2000}' <= c && c <= '\u{200a}') || c == '\u{2028}' || c == '\u{2029}' || c == '\u{202f}'
        || c == '\u{205f}' || c == '\u{3000}'
}

fn ws_run_exec(s: &Vec<char>) -> (n: usize)
    ensures
        n == ws_run(s@, 0),
        n <= s@.len(),
{
    let mut j: usize = 0;
    while j < s.len() && is_white_space_exec(s[j])
        invariant
            j <= s@.len(),
            ws_run(s@, 0) == j + ws_run(s@, j as int),
        decreases s@.len() - j,
    {
        j += 1;
    }
    j
}

fn indent_width_exec(s: &Vec<char>) -> (w: u128)
    requires
        s@.len() < usize::MAX,
    ensures
        w == indent_width(s@, 0),
{
    let mut j: usize = 0;
    let mut w: u128 = 0;
    while j < s.len() && (s[j] == ' ' || s[j] == '\t')
        invariant
            j <= s@.len() < usize::MAX,
            w <= 8 * j,
            indent_width(s@, 0) == w + indent_width(s@, j as int),
        decreases s@.len() - j,
    {
        if s[j] == ' ' {
            w = w + 1;
        } else {
            w = w + 8;
        }
        j += 1;
    }
    w
}

/// The open indentation levels, as integers.
pub open spec fn levels_view(v: Seq<u128>) -> Seq<int> {
    v.map_values(|x: u128| x as int)
}

/// Levels as the lexer keeps them: the outermost level 0 at the bottom.
pub open spec fn levels_ok(v: Seq<u128>) -> bool {
    v.len() >= 1 && v[0] == 0
}

/// Lexes one line, updating the levels and the pending-newline flag.
fn lex_line(
    tab: &Vec<(Vec<char>, Token)>,
    line: &Vec<char>,
    levels: &mut Vec<u128>,
    pending: &mut bool,
    out: &mut Vec<(Token, String)>,
)
    requires
        table_view(tab@) == literals(),
        line@.len() < usize::MAX,
        levels_ok(old(levels)@),
    ensures
        toks_view(final(out)@) == toks_view(old(out)@) + line_step(line@, levels_view(old(levels)@), *old(pending)).0,
        levels_view(final(levels)@) == line_step(line@, levels_view(old(levels)@), *old(pending)).1,
        *final(pending) == line_step(line@, levels_view(old(levels)@), *old(pending)).2,
        levels_ok(final(levels)@),
{
    let ghost o = toks_view(out@);
    let ghost l0 = levels_view(levels@);
    let ghost p0 = *pending;
    let t0 = ws_run_exec(line);
    let trimmed = sub_vec(line, t0, line.len());
    if trimmed.len() == 0 || trimmed[0] == '#' {
        *pending = true;
        assert(toks_view(out@) =~= o + line_step(line@, l0, p0).0);
        return;
    }
    let w = indent_width_exec(line);
    let ghost st = indent_step(l0, w as int);
    let cur = levels[levels.len() - 1];
    assert(l0.last() == cur);
    if w > cur {
        levels.push(w);
        let t = (Token::Indent, "<INDENT>".to_owned());
        proof {
            lemma_toks_view_push(out@, t);
        }
        out.push(t);
        assert(levels_view(levels@) =~= st.1);
        assert(toks_view(out@) =~= o + st.0);
    } else if w < cur {
        while w < levels[levels.len() - 1]
            invariant
                levels_ok(levels@),
                close_levels(l0, w as int).1 == close_levels(levels_view(levels@), w as int).1,
                o + close_levels(l0, w as int).0 == toks_view(out@) + close_levels(levels_view(levels@), w as int).0,
            decreases levels@.len(),
        {
            let ghost before = levels_view(levels@);
            let ghost tv = toks_view(out@);
            levels.pop();
            assert(levels_view(levels@) =~= before.drop_last());
            let t = (Token::Dedent, "<DEDENT>".to_owned());
            proof {
                lemma_toks_view_push(out@, t);
            }
            out.push(t);
            assert(tv + close_levels(before, w as int).0 =~= toks_view(out@) + close_levels(levels_view(levels@), w as int).0);
        }
        assert(close_levels(levels_view(levels@), w as int).0 =~= Seq::empty());
        assert(toks_view(out@) =~= o + st.0);
    } else {
        assert(toks_view(out@) =~= o + st.0);
    }
    let ghost o2 = toks_view(out@);
    let mut toks: Vec<(Token, String)> = Vec::new();
    scan_line(tab, &trimmed, &mut toks);
    assert(toks_view(toks@) =~= scan(trimmed@, 0));
    if *pending && toks.len() > 0 {
        let t = (Token::Newline, "\n".to_owned());
        proof {
            lemma_toks_view_push(out@, t);
        }
        out.push(t);
        *pending = false;
    }
    let ghost o3 = out@;
    let ghost tk = toks@;
    out.append(&mut toks);
    assert(toks_view(out@) =~= toks_view(o3) + toks_view(tk));
    let t = (Token::Newline, "\n".to_owned());
    proof {
        lemma_toks_view_push(out@, t);
    }
    out.push(t);
    assert(toks_view(out@) =~= o + line_step(line@, l0, p0).0);
}

/// The tokens of a source text: for each code line its indentation tokens, its tokens and
/// a newline; at the end a dedent for every level still open.
pub fn lex(input: &str) -> (tokens: Vec<(Token, String)>)
    requires
        input@.len() < usize::MAX,
    ensures
        toks_view(tokens@) == lex_spec(input@),
{
    let v = chars_of(input);
    assert(v@.len() < usize::MAX);
    let lines = split_lines(&v);
    let tab = literal_table();
    let mut tokens: Vec<(Token, String)> = Vec::new();
    let mut levels: Vec<u128> = Vec::new();
    levels.push(0);
    assert(levels_view(levels@) =~= seq![0int]);
    let mut pending = false;
    let mut i: usize = 0;
    while i < lines.len()
        invariant
            i <= lines@.len(),
            seqs_view(lines@) == lines_of(input@),
            table_view(tab@) == literals(),
            levels_ok(levels@),
            v@.len() < usize::MAX,
            forall|j: int| 0 <= j < lines@.len() ==> #[trigger] lines@[j]@.len() <= v@.len(),
            toks_view(tokens@) + lex_lines(seqs_view(lines@), i as int, levels_view(levels@), pending)
                == lex_spec(input@),
        decreases lines@.len() - i,
    {
        let ghost before = toks_view(tokens@);
        let ghost lv = levels_view(levels@);
        let ghost pd = pending;
        assert(lines@[i as int]@.len() <= v@.len());
        lex_line(&tab, &lines[i], &mut levels, &mut pending, &mut tokens);
        assert(toks_view(tokens@) + lex_lines(seqs_view(lines@), i + 1, levels_view(levels@), pending)
            =~= before + lex_lines(seqs_view(lines@), i as int, lv, pd));
        i += 1;
    }
    while levels.len() > 1
        invariant
            levels_ok(levels@),
            toks_view(tokens@) + dedents(levels@.len() - 1) == lex_spec(input@),
        decreases levels@.len(),
    {
        let ghost before = toks_view(tokens@);
        levels.pop();
        let t = (Token::Dedent, "<DEDENT>".to_owned());
        proof {
            lemma_toks_view_push(tokens@, t);
        }
        tokens.push(t);
        assert(toks_view(tokens@) + dedents(levels@.len() - 1) =~= before + dedents(levels@.len() as int));
    }
    assert(toks_view(tokens@) =~= toks_view(tokens@) + dedents(levels@.len() - 1));
    tokens
}


/// A one-line text that starts with neither white space nor `#` is lexed as its tokens and
/// a newline.
proof fn lemma_word_line(w: Seq<char>)
    requires
        w.len() > 0,
        !is_white_space(w[0]),
        w[0] != '#',
        forall|i: int| 0 <= i < w.len() ==> w[i] != '\n',
    ensures
        lex_spec(w) == scan(w, 0) + seq![newline_tok()],
{
    let ws = w.subrange(0, w.len() as int);
    assert(ws =~= w);
    lemma_index_of_bounds(ws, '\n');
    assert(index_of(ws, '\n') == w.len());
    assert(lines_of(w) =~= seq![w]);
    assert(ws_run(w, 0) == 0);
    assert(trim_start(w) =~= w);
    assert(indent_width(w, 0) == 0);
    let levels = seq![0int];
    assert(levels.last() == 0);
    assert(indent_step(levels, 0) == (Seq::<TokView>::empty(), levels));
    let st = line_step(w, levels, false);
    assert(st.0 =~= scan(w, 0) + seq![newline_tok()]);
    assert(st.1 == levels);
    assert(dedents(0) =~= Seq::<TokView>::empty());
    assert(lex_lines(seq![w], 1, st.1, st.2) == Seq::<TokView>::empty());
    assert(lex_spec(w) =~= st.0 + Seq::<TokView>::empty());
}

/// A fixed spelling (a keyword, an operator or a punctuation mark, in English or in Chinese),
/// written alone as a program, is lexed as the one token that the table gives it and a
/// newline; its text is kept.
pub proof fn lemma_spelling_lexes_alone(j: int)
    requires
        0 <= j < literals().len(),
        literals()[j].0.len() > 0,
        !is_white_space(literals()[j].0[0]),
        literals()[j].0[0] != '#',
        forall|i: int| 0 <= i < literals()[j].0.len() ==> literals()[j].0[i] != '\n',
        forall|m: int| 0 <= m < literals().len() && (#[trigger] literals()[m]).0 == literals()[j].0 ==> literals()[m].1
            == literals()[j].1,
    ensures
        lex_spec(literals()[j].0) == seq![(lex_kind(literals()[j].1), literals()[j].0), newline_tok()],
{
    lemma_spelling_scans_alone(j);
    lemma_word_line(literals()[j].0);
    assert(seq![(lex_kind(literals()[j].1), literals()[j].0)] + seq![newline_tok()] =~= seq![
        (lex_kind(literals()[j].1), literals()[j].0),
        newline_tok(),
    ]);
}

/// Two spellings of one token (a keyword in English and in Chinese, a punctuation mark in
/// ASCII and in full width), each written alone, give the same token kinds.
pub proof fn lemma_spellings_of_one_token(a: int, b: int)
    requires
        0 <= a < literals().len(),
        0 <= b < literals().len(),
        literals()[a].1 == literals()[b].1,
        literals()[a].0.len() > 0,
        !is_white_space(literals()[a].0[0]),
        literals()[a].0[0] != '#',
        forall|i: int| 0 <= i < literals()[a].0.len() ==> literals()[a].0[i] != '\n',
        forall|m: int| 0 <= m < literals().len() && (#[trigger] literals()[m]).0 == literals()[a].0 ==> literals()[m].1
            == literals()[a].1,
        literals()[b].0.len() > 0,
        !is_white_space(literals()[b].0[0]),
        literals()[b].0[0] != '#',
        forall|i: int| 0 <= i < literals()[b].0.len() ==> literals()[b].0[i] != '\n',
        forall|m: int| 0 <= m < literals().len() && (#[trigger] literals()[m]).0 == literals()[b].0 ==> literals()[m].1
            == literals()[b].1,
    ensures
        lex_spec(literals()[a].0).map_values(|t: TokView| t.0) == lex_spec(literals()[b].0).map_values(
            |t: TokView| t.0,
        ),
{
    lemma_spelling_lexes_alone(a);
    lemma_spelling_lexes_alone(b);
    assert(lex_spec(literals()[a].0).map_values(|t: TokView| t.0) =~= lex_spec(literals()[b].0).map_values(
        |t: TokView| t.0,
    ));
}

proof fn lemma_ident_run_chars(s: Seq<char>, i: int)
    requires
        0 <= i <= s.len(),
        ident_run(s, i) == s.len() - i,
    ensures
        forall|j: int| i <= j < s.len() ==> is_ident_char(#[trigger] s[j]),
    decreases s.len() - i,
{
    if i < s.len() {
        lemma_ident_run_chars(s, i + 1);
    }
}

/// A name written alone as a program, which no fixed spelling spells and which is not all
/// Chinese numerals, is lexed as one identifier token and a newline: a built-in function or
/// magic method, in Chinese or in English, carries its English name; any other name is a
/// plain identifier. Its text is kept.
pub proof fn lemma_identifier_lexes_alone(w: Seq<char>)
    requires
        w.len() > 0,
        ident_len(w, 0) == w.len(),
        cn_run(w, 0) < w.len(),
        forall|m: int| 0 <= m < literals().len() ==> (#[trigger] literals()[m]).0 != w,
    ensures
        lex_spec(w) == seq![(ident_kind(w), w), newline_tok()],
        builtin_name(w) is Some ==> lex_spec(w)[0].0 == LexKind::Builtin(builtin_name(w).unwrap()),
        builtin_name(w) is None ==> lex_spec(w)[0].0 == LexKind::Plain(Token::Identifier),
{
    lemma_identifier_scans_alone(w);
    lemma_ident_run_chars(w, 1);
    assert forall|i: int| 0 <= i < w.len() implies w[i] != '\n' by {
        if i > 0 {
            assert(is_ident_char(w[i]));
        }
    }
    lemma_word_line(w);
    assert(seq![(ident_kind(w), w)] + seq![newline_tok()] =~= seq![(ident_kind(w), w), newline_tok()]);
}


/// A name made of ASCII letters (upper and lower case), digits, `_` and CJK characters
/// `\u{4e00}`–`\u{9fa5}`, not starting with a digit, written alone as a program, is lexed as
/// one identifier token with its whole text and a newline (unless it is a fixed spelling or
/// all Chinese numerals): an identifier continues over every such character.
pub proof fn lemma_name_lexes_whole(w: Seq<char>)
    requires
        w.len() > 0,
        !('0' <= w[0] && w[0] <= '9'),
        forall|i: int| 0 <= i < w.len() ==> ('a' <= #[trigger] w[i] && w[i] <= 'z') || ('A' <= w[i] && w[i] <= 'Z')
            || ('0' <= w[i] && w[i] <= '9') || w[i] == '_' || ('\u{4e00}' <= w[i] && w[i] <= '\u{9fa5}'),
        cn_run(w, 0) < w.len(),
        forall|m: int| 0 <= m < literals().len() ==> (#[trigger] literals()[m]).0 != w,
    ensures
        lex_spec(w) == seq![(ident_kind(w), w), newline_tok()],
{
    lemma_name_run(w, 1);
    assert(is_ident_start(w[0]));
    lemma_identifier_lexes_alone(w);
}

proof fn lemma_name_run(w: Seq<char>, i: int)
    requires
        0 <= i <= w.len(),
        forall|j: int| 0 <= j < w.len() ==> ('a' <= #[trigger] w[j] && w[j] <= 'z') || ('A' <= w[j] && w[j] <= 'Z')
            || ('0' <= w[j] && w[j] <= '9') || w[j] == '_' || ('\u{4e00}' <= w[j] && w[j] <= '\u{9fa5}'),
    ensures
        ident_run(w, i) == w.len() - i,
    decreases w.len() - i,
{
    if i < w.len() {
        assert(is_ident_char(w[i]));
        lemma_name_run(w, i + 1);
    }
}

} // verus!
