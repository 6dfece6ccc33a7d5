//! The tokens of one line of source: at each position the longest match among the token
//! spellings and patterns, ties going to the spelling.
use vstd::prelude::*;
use crate::chinese_to_digits::chinese_digits_text;
use crate::text::{is_digit, chars_of, is_text, string_of_range};
use crate::ast::opt_string_view;
use crate::token::{Token, LexKind, TokView, lex_kind, toks_view, lemma_toks_view_push};
use crate::chinese_to_digits::{chinese_to_digits, convertible, is_convertible};

verus! {

/// The fixed spellings of tokens: keywords, operators and punctuation, in English and in
/// Chinese.
pub open spec fn literals() -> Seq<(Seq<char>, Token)> {
    literals_1() + literals_2() + literals_3() + literals_4() + literals_5() + literals_6() + literals_7()
        + literals_8() + literals_9()
}

/// Fixed spellings, part 1.
pub open spec fn literals_1() -> Seq<(Seq<char>, Token)> {
    seq![
        ("def"@, Token::Def),
        ("定义"@, Token::Def),
        ("if"@, Token::If),
        ("如果"@, Token::If),
        ("else"@, Token::Else),
        ("否则"@, Token::Else),
        ("elif"@, Token::Elif),
        ("要不然"@, Token::Elif),
        ("for"@, Token::For),
        ("迭代"@, Token::For),
        ("while"@, Token::While),
        ("当"@, Token::While),
        ("in"@, Token::In),
        ("在"@, Token::In),
        ("is"@, Token::Is),
        ("是"@, Token::Is)
    ]
}

/// Fixed spellings, part 2.
pub open spec fn literals_2() -> Seq<(Seq<char>, Token)> {
    seq![
        ("not"@, Token::Not),
        ("不是"@, Token::Not),
        ("and"@, Token::And),
        ("和"@, Token::And),
        ("or"@, Token::Or),
        ("或"@, Token::Or),
        ("None"@, Token::NoneKw),
        ("空"@, Token::NoneKw),
        ("True"@, Token::True),
        ("真"@, Token::True),
        ("False"@, Token::False),
        ("假"@, Token::False),
        ("return"@, Token::Return),
        ("返回"@, Token::Return),
        ("break"@, Token::Break),
        ("跳出"@, Token::Break)
    ]
}

/// Fixed spellings, part 3.
pub open spec fn literals_3() -> Seq<(Seq<char>, Token)> {
    seq![
        ("continue"@, Token::Continue),
        ("继续"@, Token::Continue),
        ("pass"@, Token::Pass),
        ("过"@, Token::Pass),
        ("import"@, Token::Import),
        ("导入"@, Token::Import),
        ("from"@, Token::From),
        ("从"@, Token::From),
        ("as"@, Token::As),
        ("作为"@, Token::As),
        ("class"@, Token::Class),
        ("类"@, Token::Class),
        ("try"@, Token::Try),
        ("尝试"@, Token::Try),
        ("except"@, Token::Except),
        ("意外情况"@, Token::Except)
    ]
}

/// Fixed spellings, part 4.
pub open spec fn literals_4() -> Seq<(Seq<char>, Token)> {
    seq![
        ("finally"@, Token::Finally),
        ("最终"@, Token::Finally),
        ("raise"@, Token::Raise),
        ("举起"@, Token::Raise),
        ("assert"@, Token::Assert),
        ("断言"@, Token::Assert),
        ("del"@, Token::Del),
        ("删除"@, Token::Del),
        ("global"@, Token::Global),
        ("全局的"@, Token::Global),
        ("nonlocal"@, Token::Nonlocal),
        ("非局部"@, Token::Nonlocal),
        ("lambda"@, Token::Lambda),
        ("拉姆达"@, Token::Lambda),
        ("yield"@, Token::Yield),
        ("产出"@, Token::Yield)
    ]
}

/// Fixed spellings, part 5.
pub open spec fn literals_5() -> Seq<(Seq<char>, Token)> {
    seq![
        ("await"@, Token::Await),
        ("等待"@, Token::Await),
        ("async"@, Token::Async),
        ("异步的"@, Token::Async),
        ("with"@, Token::With),
        ("带上"@, Token::With),
        ("match"@, Token::Match),
        ("匹配"@, Token::Match),
        ("case"@, Token::Case),
        ("情况"@, Token::Case),
        ("**"@, Token::Pow),
        ("取幂"@, Token::Pow),
        ("//"@, Token::FloorDiv),
        ("地板除"@, Token::FloorDiv),
        ("%"@, Token::Mod),
        ("取余"@, Token::Mod)
    ]
}

/// Fixed spellings, part 6.
pub open spec fn literals_6() -> Seq<(Seq<char>, Token)> {
    seq![
        ("取模"@, Token::Mod),
        ("="@, Token::Equal),
        ("赋值为"@, Token::Equal),
        ("+"@, Token::Plus),
        ("加"@, Token::Plus),
        ("-"@, Token::Minus),
        ("减"@, Token::Minus),
        ("*"@, Token::Star),
        ("乘"@, Token::Star),
        ("/"@, Token::Slash),
        ("除以"@, Token::Slash),
        ("&"@, Token::BitwiseAnd),
        ("按位与"@, Token::BitwiseAnd),
        ("|"@, Token::BitwiseOr),
        ("按位或"@, Token::BitwiseOr),
        ("^"@, Token::BitwiseXor)
    ]
}

/// Fixed spellings, part 7.
pub open spec fn literals_7() -> Seq<(Seq<char>, Token)> {
    seq![
        ("按位异或"@, Token::BitwiseXor),
        ("~"@, Token::BitwiseNot),
        ("按位取反"@, Token::BitwiseNot),
        ("<<"@, Token::LeftShift),
        ("左移"@, Token::LeftShift),
        (">>"@, Token::RightShift),
        ("右移"@, Token::RightShift),
        ("."@, Token::Dot),
        ("("@, Token::LParen),
        ("（"@, Token::LParen),
        (")"@, Token::RParen),
        ("）"@, Token::RParen),
        (":"@, Token::Colon),
        ("："@, Token::Colon),
        (","@, Token::Comma),
        ("，"@, Token::Comma)
    ]
}

/// Fixed spellings, part 8.
pub open spec fn literals_8() -> Seq<(Seq<char>, Token)> {
    seq![
        ("=="@, Token::DoubleEqual),
        ("等于"@, Token::DoubleEqual),
        ("!="@, Token::NotEqual),
        ("！="@, Token::NotEqual),
        ("不等于"@, Token::NotEqual),
        ("<"@, Token::Less),
        ("《"@, Token::Less),
        ("小于"@, Token::Less),
        ("<="@, Token::LessEqual),
        ("《="@, Token::LessEqual),
        ("小于等于"@, Token::LessEqual),
        (">"@, Token::Greater),
        ("》"@, Token::Greater),
        ("大于"@, Token::Greater),
        (">="@, Token::GreaterEqual),
        ("》="@, Token::GreaterEqual)
    ]
}

/// Fixed spellings, part 9.
pub open spec fn literals_9() -> Seq<(Seq<char>, Token)> {
    seq![
        ("大于等于"@, Token::GreaterEqual),
        ("["@, Token::LBracket),
        ("【"@, Token::LBracket),
        ("]"@, Token::RBracket),
        ("】"@, Token::RBracket),
        ("{"@, Token::LBrace),
        ("}"@, Token::RBrace)
    ]
}

/// Whether `s` holds `lit` at position `i`.
pub open spec fn starts_at(s: Seq<char>, i: int, lit: Seq<char>) -> bool {
    0 <= i && i + lit.len() <= s.len() && s.subrange(i, i + lit.len()) == lit
}

/// The longest nonempty spelling of `tab` that `s` holds at `i`: its token and length.
/// Among spellings of equal length the first wins.
pub open spec fn longest_literal(tab: Seq<(Seq<char>, Token)>, s: Seq<char>, i: int) -> Option<(Token, int)>
    decreases tab.len(),
{
    if tab.len() == 0 {
        None
    } else {
        let rest = longest_literal(tab.drop_last(), s, i);
        let lit = tab.last().0;
        if lit.len() > 0 && starts_at(s, i, lit) && (rest is None || rest.unwrap().1 < lit.len()) {
            Some((tab.last().1, lit.len() as int))
        } else {
            rest
        }
    }
}

/// `[a-zA-Z_\u4e00-\u9fa5]`: a character that can start an identifier.
pub open spec fn is_ident_start(c: char) -> bool {
    ('a' <= c && c <= 'z') || ('A' <= c && c <= 'Z') || c == '_' || ('\u{4e00}' <= c && c <= '\u{9fa5}')
}

/// `[a-zA-Z0-9_\u4e00-\u9fa5]`: a character that can continue an identifier.
pub open spec fn is_ident_char(c: char) -> bool {
    is_ident_start(c) || is_digit(c)
}

/// A Chinese numeral character: `[点零一二三四五六七八九十百千万亿壹贰叁肆伍陆柒捌玖拾佰仟]`.
pub open spec fn is_cn_numeral(c: char) -> bool {
    c == '点' || c == '零' || c == '一' || c == '二' || c == '三' || c == '四' || c == '五' || c == '六'
        || c == '七' || c == '八' || c == '九' || c == '十' || c == '百' || c == '千' || c == '万'
        || c == '亿' || c == '壹' || c == '贰' || c == '叁' || c == '肆' || c == '伍' || c == '陆'
        || c == '柒' || c == '捌' || c == '玖' || c == '拾' || c == '佰' || c == '仟'
}

/// A blank inside a line: `[ \t\r]`.
pub open spec fn is_blank(c: char) -> bool {
    c == ' ' || c == '\t' || c == '\r'
}

/// The length of the run of identifier characters at `i`.
pub open spec fn ident_run(s: Seq<char>, i: int) -> int
    decreases s.len() - i,
{
    if 0 <= i < s.len() && is_ident_char(s[i]) {
        1 + ident_run(s, i + 1)
    } else {
        0
    }
}

/// The length of the run of ASCII digits at `i`.
pub open spec fn digit_run(s: Seq<char>, i: int) -> int
    decreases s.len() - i,
{
    if 0 <= i < s.len() && is_digit(s[i]) {
        1 + digit_run(s, i + 1)
    } else {
        0
    }
}

/// The length of the run of Chinese numerals at `i`.
pub open spec fn cn_run(s: Seq<char>, i: int) -> int
    decreases s.len() - i,
{
    if 0 <= i < s.len() && is_cn_numeral(s[i]) {
        1 + cn_run(s, i + 1)
    } else {
        0
    }
}

/// The length of the run of blanks at `i`.
pub open spec fn blank_run(s: Seq<char>, i: int) -> int
    decreases s.len() - i,
{
    if 0 <= i < s.len() && is_blank(s[i]) {
        1 + blank_run(s, i + 1)
    } else {
        0
    }
}

/// The length of the identifier at `i`, or 0.
pub open spec fn ident_len(s: Seq<char>, i: int) -> int {
    if 0 <= i < s.len() && is_ident_start(s[i]) {
        1 + ident_run(s, i + 1)
    } else {
        0
    }
}

/// The length of the decimal `[0-9]+\.[0-9]+` at `i`, or 0.
pub open spec fn float_len(s: Seq<char>, i: int) -> int {
    let d = digit_run(s, i);
    if d > 0 && i + d < s.len() && s[i + d] == '.' && digit_run(s, i + d + 1) > 0 {
        d + 1 + digit_run(s, i + d + 1)
    } else {
        0
    }
}

/// The length of the comment `#.*` at `i`, or 0.
pub open spec fn comment_len(s: Seq<char>, i: int) -> int {
    if 0 <= i < s.len() && s[i] == '#' {
        s.len() - i
    } else {
        0
    }
}

/// The quotes of a string literal.
pub enum Quote {
    /// `'...'`
    Single,
    /// `"..."`
    Double,
    /// Chinese double quotes, `“` or `”` at either end.
    Curly,
    /// Chinese single quotes `‘...’`.
    Corner,
}

/// Whether `c` ends a string opened with `q`.
pub open spec fn closes(q: Quote, c: char) -> bool {
    match q {
        Quote::Single => c == '\'',
        Quote::Double => c == '"',
        Quote::Curly => c == '“' || c == '”',
        Quote::Corner => c == '’',
    }
}

/// Whether `c` may not stand unescaped inside a string opened with `q`.
pub open spec fn excluded(q: Quote, c: char) -> bool {
    match q {
        Quote::Single => c == '\'',
        Quote::Double => c == '"',
        Quote::Curly => c == '“' || c == '”',
        Quote::Corner => c == '‘' || c == '’',
    }
}

/// The opening of a string literal at `i`: its quotes and where its body starts.
/// `f'` and `f"` open format strings.
pub open spec fn string_open(s: Seq<char>, i: int) -> Option<(Quote, int)> {
    if !(0 <= i < s.len()) {
        None
    } else if s[i] == '\'' {
        Some((Quote::Single, i + 1))
    } else if s[i] == '"' {
        Some((Quote::Double, i + 1))
    } else if s[i] == '“' || s[i] == '”' {
        Some((Quote::Curly, i + 1))
    } else if s[i] == '‘' {
        Some((Quote::Corner, i + 1))
    } else if s[i] == 'f' && i + 1 < s.len() && s[i + 1] == '\'' {
        Some((Quote::Single, i + 2))
    } else if s[i] == 'f' && i + 1 < s.len() && s[i + 1] == '"' {
        Some((Quote::Double, i + 2))
    } else {
        None
    }
}

/// Reading a string body from `j`: `Ok(e)` when a closing quote ends the string just before
/// `e`; `Err(x)` when the body cannot go on, `x` being where the reading stopped. A
/// backslash takes the next character with it.
pub open spec fn quoted(s: Seq<char>, j: int, q: Quote) -> Result<int, int>
    decreases s.len() - j,
{
    if j < 0 || j >= s.len() {
        Err(s.len() as int)
    } else if s[j] == '\\' {
        if j + 1 < s.len() {
            quoted(s, j + 2, q)
        } else {
            Err(s.len() as int)
        }
    } else if closes(q, s[j]) {
        Ok(j + 1)
    } else if excluded(q, s[j]) {
        Err(j)
    } else {
        quoted(s, j + 1, q)
    }
}

/// The length of the string literal at `i`, or 0.
pub open spec fn string_len(s: Seq<char>, i: int) -> int {
    match string_open(s, i) {
        Some((q, b)) => match quoted(s, b, q) {
            Ok(e) => e - i,
            Err(_) => 0,
        },
        None => 0,
    }
}

/// How far the lexer skips at `i` when no pattern matches there: an unterminated string
/// is skipped up to where its body stopped; anything else is one character.
pub open spec fn error_len(s: Seq<char>, i: int) -> int {
    match string_open(s, i) {
        Some((q, b)) => match quoted(s, b, q) {
            Err(x) => if x > i { x - i } else { 1 },
            Ok(_) => 1,
        },
        None => 1,
    }
}

/// The pattern that matched.
pub enum Pattern {
    Literal(Token),
    Numeral,
    Ident,
    Decimal,
    Int,
    Str,
    Comment,
    Blank,
}

/// `best`, or `(p, n)` when `n` is longer.
pub open spec fn longer(best: Option<(Pattern, int)>, p: Pattern, n: int) -> Option<(Pattern, int)> {
    if n > 0 && (best is None || best.unwrap().1 < n) {
        Some((p, n))
    } else {
        best
    }
}

/// The longest match at `i`. On equal lengths a spelling wins over a Chinese numeral, and a
/// Chinese numeral over an identifier.
pub open spec fn best_match(s: Seq<char>, i: int) -> Option<(Pattern, int)> {
    let lit = match longest_literal(literals(), s, i) {
        Some((k, n)) => Some((Pattern::Literal(k), n)),
        None => None,
    };
    let m1 = longer(lit, Pattern::Numeral, cn_run(s, i));
    let m2 = longer(m1, Pattern::Ident, ident_len(s, i));
    let m3 = longer(m2, Pattern::Decimal, float_len(s, i));
    let m4 = longer(m3, Pattern::Int, digit_run(s, i));
    let m5 = longer(m4, Pattern::Str, string_len(s, i));
    let m6 = longer(m5, Pattern::Comment, comment_len(s, i));
    longer(m6, Pattern::Blank, blank_run(s, i))
}

/// The English name of a built-in function or magic method, given its Chinese or English
/// spelling.
pub open spec fn builtin_name(s: Seq<char>) -> Option<Seq<char>> {
    if s == "打印"@ || s == "print"@ {
        Some("print"@)
    } else if s == "范围"@ || s == "range"@ {
        Some("range"@)
    } else if s == "整数"@ || s == "int"@ {
        Some("int"@)
    } else if s == "小数"@ || s == "float"@ {
        Some("float"@)
    } else if s == "字符串"@ || s == "str"@ {
        Some("str"@)
    } else if s == "输入"@ || s == "input"@ {
        Some("input"@)
    } else if s == "长度"@ || s == "len"@ {
        Some("len"@)
    } else if s == "列表"@ || s == "list"@ {
        Some("list"@)
    } else if s == "字典"@ || s == "dict"@ {
        Some("dict"@)
    } else if s == "集合"@ || s == "set"@ {
        Some("set"@)
    } else if s == "元组"@ || s == "tuple"@ {
        Some("tuple"@)
    } else if s == "索引迭代"@ || s == "enumerate"@ {
        Some("enumerate"@)
    } else if s == "解析"@ || s == "eval"@ {
        Some("eval"@)
    } else if s == "求和"@ || s == "sum"@ {
        Some("sum"@)
    } else if s == "最小值"@ || s == "min"@ {
        Some("min"@)
    } else if s == "最大值"@ || s == "max"@ {
        Some("max"@)
    } else if s == "绝对值"@ || s == "abs"@ {
        Some("abs"@)
    } else if s == "全部为真"@ || s == "all"@ {
        Some("all"@)
    } else if s == "有一个为真"@ || s == "any"@ {
        Some("any"@)
    } else if s == "映射"@ || s == "map"@ {
        Some("map"@)
    } else if s == "过滤"@ || s == "filter"@ {
        Some("filter"@)
    } else if s == "拉链"@ || s == "zip"@ {
        Some("zip"@)
    } else if s == "打开"@ || s == "open"@ {
        Some("open"@)
    } else if s == "执行"@ || s == "exec"@ {
        Some("exec"@)
    } else if s == "类型"@ || s == "type"@ {
        Some("type"@)
    } else if s == "实例判断"@ || s == "isinstance"@ {
        Some("isinstance"@)
    } else if s == "子类判断"@ || s == "issubclass"@ {
        Some("issubclass"@)
    } else if s == "目录"@ || s == "dir"@ {
        Some("dir"@)
    } else if s == "变量"@ || s == "vars"@ {
        Some("vars"@)
    } else if s == "本地变量"@ || s == "locals"@ {
        Some("locals"@)
    } else if s == "全局变量"@ || s == "globals"@ {
        Some("globals"@)
    } else if s == "帮助"@ || s == "help"@ {
        Some("help"@)
    } else if s == "编号"@ || s == "id"@ {
        Some("id"@)
    } else if s == "排序"@ || s == "sorted"@ {
        Some("sorted"@)
    } else if s == "父类"@ || s == "super"@ {
        Some("super"@)
    } else if s == "对象"@ || s == "object"@ {
        Some("object"@)
    } else if s == "类方法"@ || s == "classmethod"@ {
        Some("classmethod"@)
    } else if s == "静态方法"@ || s == "staticmethod"@ {
        Some("staticmethod"@)
    } else if s == "属性"@ || s == "property"@ {
        Some("property"@)
    } else if s == "异常"@ || s == "Exception"@ {
        Some("Exception"@)
    } else if s == "魔法初始化"@ || s == "__init__"@ {
        Some("__init__"@)
    } else if s == "魔法新建"@ || s == "__new__"@ {
        Some("__new__"@)
    } else if s == "魔法销毁"@ || s == "__del__"@ {
        Some("__del__"@)
    } else if s == "魔法字符串表示"@ || s == "__str__"@ {
        Some("__str__"@)
    } else if s == "魔法表达式"@ || s == "__repr__"@ {
        Some("__repr__"@)
    } else if s == "魔法字节表示"@ || s == "__bytes__"@ {
        Some("__bytes__"@)
    } else if s == "魔法格式化"@ || s == "__format__"@ {
        Some("__format__"@)
    } else if s == "魔法等于"@ || s == "__eq__"@ {
        Some("__eq__"@)
    } else if s == "魔法不等于"@ || s == "__ne__"@ {
        Some("__ne__"@)
    } else if s == "魔法小于"@ || s == "__lt__"@ {
        Some("__lt__"@)
    } else if s == "魔法小于等于"@ || s == "__le__"@ {
        Some("__le__"@)
    } else if s == "魔法大于"@ || s == "__gt__"@ {
        Some("__gt__"@)
    } else if s == "魔法大于等于"@ || s == "__ge__"@ {
        Some("__ge__"@)
    } else if s == "魔法哈希"@ || s == "__hash__"@ {
        Some("__hash__"@)
    } else if s == "魔法布尔"@ || s == "__bool__"@ {
        Some("__bool__"@)
    } else if s == "魔法属性获取"@ || s == "__getattr__"@ {
        Some("__getattr__"@)
    } else if s == "魔法属性设置"@ || s == "__setattr__"@ {
        Some("__setattr__"@)
    } else if s == "魔法属性删除"@ || s == "__delattr__"@ {
        Some("__delattr__"@)
    } else if s == "魔法属性获取项"@ || s == "__getitem__"@ {
        Some("__getitem__"@)
    } else if s == "魔法属性设置项"@ || s == "__setitem__"@ {
        Some("__setitem__"@)
    } else if s == "魔法属性删除项"@ || s == "__delitem__"@ {
        Some("__delitem__"@)
    } else if s == "魔法长度"@ || s == "__len__"@ {
        Some("__len__"@)
    } else if s == "魔法可迭代"@ || s == "__iter__"@ {
        Some("__iter__"@)
    } else if s == "魔法迭代下一个"@ || s == "__next__"@ {
        Some("__next__"@)
    } else if s == "魔法反转"@ || s == "__reversed__"@ {
        Some("__reversed__"@)
    } else if s == "魔法包含"@ || s == "__contains__"@ {
        Some("__contains__"@)
    } else if s == "魔法加"@ || s == "__add__"@ {
        Some("__add__"@)
    } else if s == "魔法减"@ || s == "__sub__"@ {
        Some("__sub__"@)
    } else if s == "魔法乘"@ || s == "__mul__"@ {
        Some("__mul__"@)
    } else if s == "魔法除"@ || s == "__truediv__"@ {
        Some("__truediv__"@)
    } else if s == "魔法地板除"@ || s == "__floordiv__"@ {
        Some("__floordiv__"@)
    } else if s == "魔法取余"@ || s == "__mod__"@ {
        Some("__mod__"@)
    } else if s == "魔法取幂"@ || s == "__pow__"@ {
        Some("__pow__"@)
    } else if s == "魔法左移"@ || s == "__lshift__"@ {
        Some("__lshift__"@)
    } else if s == "魔法右移"@ || s == "__rshift__"@ {
        Some("__rshift__"@)
    } else if s == "魔法按位与"@ || s == "__and__"@ {
        Some("__and__"@)
    } else if s == "魔法按位或"@ || s == "__or__"@ {
        Some("__or__"@)
    } else if s == "魔法按位异或"@ || s == "__xor__"@ {
        Some("__xor__"@)
    } else if s == "魔法取反"@ || s == "__invert__"@ {
        Some("__invert__"@)
    } else if s == "魔法可调用"@ || s == "__call__"@ {
        Some("__call__"@)
    } else if s == "魔法进入"@ || s == "__enter__"@ {
        Some("__enter__"@)
    } else if s == "魔法退出"@ || s == "__exit__"@ {
        Some("__exit__"@)
    } else if s == "魔法拷贝"@ || s == "__copy__"@ {
        Some("__copy__"@)
    } else if s == "魔法深拷贝"@ || s == "__deepcopy__"@ {
        Some("__deepcopy__"@)
    } else {
        None
    }
}

/// The kind of an identifier: a built-in, or a plain identifier.
pub open spec fn ident_kind(s: Seq<char>) -> LexKind {
    match builtin_name(s) {
        Some(e) => LexKind::Builtin(e),
        None => LexKind::Plain(Token::Identifier),
    }
}

/// The kind of a converted Chinese numeral: a decimal if its text holds a point.
pub open spec fn number_kind(converted: Seq<char>) -> LexKind {
    if converted.contains('.') {
        LexKind::Plain(Token::Float)
    } else {
        LexKind::Plain(Token::Integer)
    }
}

/// The tokens that a match of `p` with text `w` yields. A Chinese numeral becomes the number
/// that `chinese2digits` makes of it; a numeral outside the range in which the crate is known
/// to convert without failing (`convertible`) stays a `ChineseNumber` token with its text.
pub open spec fn emitted(p: Pattern, w: Seq<char>) -> Seq<TokView> {
    match p {
        Pattern::Literal(k) => seq![(lex_kind(k), w)],
        Pattern::Numeral => if convertible(w) {
            seq![(number_kind(chinese_digits_text(w)), chinese_digits_text(w))]
        } else {
            seq![(LexKind::Plain(Token::ChineseNumber), w)]
        },
        Pattern::Ident => seq![(ident_kind(w), w)],
        Pattern::Decimal => seq![(LexKind::Plain(Token::Float), w)],
        Pattern::Int => seq![(LexKind::Plain(Token::Integer), w)],
        Pattern::Str => seq![(LexKind::Plain(Token::String), w)],
        Pattern::Comment => seq![(LexKind::Plain(Token::Comment), w)],
        Pattern::Blank => Seq::empty(),
    }
}

/// The tokens of `s` from position `i` on.
pub open spec fn scan(s: Seq<char>, i: int) -> Seq<TokView>
    decreases s.len() - i,
{
    if !(0 <= i < s.len()) {
        Seq::empty()
    } else {
        match best_match(s, i) {
            Some((p, n)) => if 0 < n <= s.len() - i {
                emitted(p, s.subrange(i, i + n)) + scan(s, i + n)
            } else {
                Seq::empty()
            },
            None => {
                let e = error_len(s, i);
                if 0 < e <= s.len() - i {
                    scan(s, i + e)
                } else {
                    Seq::empty()
                }
            },
        }
    }
}

/// The tokens that no fixed spelling stands for: those of the line structure, the Chinese
/// numeral (which has a pattern of its own) and the error token.
pub open spec fn is_layout(k: Token) -> bool {
    k is Indent || k is Dedent || k is Newline || k is ChineseNumber || k is Error
}

/// No entry of the table spells an indentation token.
pub open spec fn no_layout_entries(tab: Seq<(Seq<char>, Token)>) -> bool {
    forall|j: int| 0 <= j < tab.len() ==> !is_layout(#[trigger] tab[j].1)
}

proof fn lemma_no_layout_concat(a: Seq<(Seq<char>, Token)>, b: Seq<(Seq<char>, Token)>)
    requires
        no_layout_entries(a),
        no_layout_entries(b),
    ensures
        no_layout_entries(a + b),
{
    assert forall|j: int| 0 <= j < (a + b).len() implies !is_layout(#[trigger] (a + b)[j].1) by {
        if j < a.len() {
            assert((a + b)[j] == a[j]);
        } else {
            assert((a + b)[j] == b[j - a.len()]);
        }
    }
}

/// No fixed spelling is that of an indentation token.
pub proof fn lemma_literals_no_layout()
    ensures
        no_layout_entries(literals()),
{
    assert forall|j: int| 0 <= j < literals_1().len() implies !is_layout(#[trigger] literals_1()[j].1) by {}
    assert forall|j: int| 0 <= j < literals_2().len() implies !is_layout(#[trigger] literals_2()[j].1) by {}
    assert forall|j: int| 0 <= j < literals_3().len() implies !is_layout(#[trigger] literals_3()[j].1) by {}
    assert forall|j: int| 0 <= j < literals_4().len() implies !is_layout(#[trigger] literals_4()[j].1) by {}
    assert forall|j: int| 0 <= j < literals_5().len() implies !is_layout(#[trigger] literals_5()[j].1) by {}
    assert forall|j: int| 0 <= j < literals_6().len() implies !is_layout(#[trigger] literals_6()[j].1) by {}
    assert forall|j: int| 0 <= j < literals_7().len() implies !is_layout(#[trigger] literals_7()[j].1) by {}
    assert forall|j: int| 0 <= j < literals_8().len() implies !is_layout(#[trigger] literals_8()[j].1) by {}
    assert forall|j: int| 0 <= j < literals_9().len() implies !is_layout(#[trigger] literals_9()[j].1) by {}
    let mut acc = literals_1();
    lemma_no_layout_concat(acc, literals_2());
    acc = acc + literals_2();
    lemma_no_layout_concat(acc, literals_3());
    acc = acc + literals_3();
    lemma_no_layout_concat(acc, literals_4());
    acc = acc + literals_4();
    lemma_no_layout_concat(acc, literals_5());
    acc = acc + literals_5();
    lemma_no_layout_concat(acc, literals_6());
    acc = acc + literals_6();
    lemma_no_layout_concat(acc, literals_7());
    acc = acc + literals_7();
    lemma_no_layout_concat(acc, literals_8());
    acc = acc + literals_8();
    lemma_no_layout_concat(acc, literals_9());
    acc = acc + literals_9();
    assert(acc == literals());
}

/// The longest spelling found in a table without indentation tokens is not one either.
pub proof fn lemma_longest_no_layout(tab: Seq<(Seq<char>, Token)>, s: Seq<char>, i: int)
    requires
        no_layout_entries(tab),
    ensures
        match longest_literal(tab, s, i) {
            Some((k, _)) => !is_layout(k),
            None => true,
        },
    decreases tab.len(),
{
    if tab.len() > 0 {
        assert(no_layout_entries(tab.drop_last()));
        lemma_longest_no_layout(tab.drop_last(), s, i);
        assert(tab.last() == tab[tab.len() - 1]);
    }
}

/// A sequence of token views none of whose kinds is one that a line's patterns never yield.
pub open spec fn spelled_only(s: Seq<TokView>) -> bool {
    forall|j: int| 0 <= j < s.len() ==> !unspelled(#[trigger] s[j].0)
}

/// The kinds that a line's patterns never yield.
pub open spec fn unspelled(k: LexKind) -> bool {
    match k {
        LexKind::Plain(t) => t is Indent || t is Dedent || t is Newline || t is Error,
        LexKind::Builtin(_) => false,
    }
}

/// The tokens of a line are all of kinds that its patterns yield.
pub proof fn lemma_scan_spelled_only(s: Seq<char>, i: int)
    ensures
        spelled_only(scan(s, i)),
    decreases s.len() - i,
{
    if 0 <= i < s.len() {
        lemma_literals_no_layout();
        lemma_longest_no_layout(literals(), s, i);
        match best_match(s, i) {
            Some((p, n)) => {
                if 0 < n <= s.len() - i {
                    lemma_scan_spelled_only(s, i + n);
                    let e = emitted(p, s.subrange(i, i + n));
                    let r = scan(s, i + n);
                    assert forall|j: int| 0 <= j < (e + r).len() implies !unspelled(#[trigger] (e + r)[j].0) by {
                        if j < e.len() {
                            assert((e + r)[j] == e[j]);
                        } else {
                            assert((e + r)[j] == r[j - e.len()]);
                        }
                    }
                }
            },
            None => {
                let e = error_len(s, i);
                if 0 < e <= s.len() - i {
                    lemma_scan_spelled_only(s, i + e);
                }
            },
        }
    }
}

proof fn lemma_ident_run_bound(s: Seq<char>, i: int)
    requires
        0 <= i <= s.len(),
    ensures
        0 <= ident_run(s, i) <= s.len() - i,
    decreases s.len() - i,
{
    if i < s.len() {
        lemma_ident_run_bound(s, i + 1);
    }
}

proof fn lemma_digit_run_bound(s: Seq<char>, i: int)
    requires
        0 <= i <= s.len(),
    ensures
        0 <= digit_run(s, i) <= s.len() - i,
    decreases s.len() - i,
{
    if i < s.len() {
        lemma_digit_run_bound(s, i + 1);
    }
}

proof fn lemma_cn_run_bound(s: Seq<char>, i: int)
    requires
        0 <= i <= s.len(),
    ensures
        0 <= cn_run(s, i) <= s.len() - i,
    decreases s.len() - i,
{
    if i < s.len() {
        lemma_cn_run_bound(s, i + 1);
    }
}

proof fn lemma_blank_run_bound(s: Seq<char>, i: int)
    requires
        0 <= i <= s.len(),
    ensures
        0 <= blank_run(s, i) <= s.len() - i,
    decreases s.len() - i,
{
    if i < s.len() {
        lemma_blank_run_bound(s, i + 1);
    }
}

proof fn lemma_quoted_bound(s: Seq<char>, j: int, q: Quote)
    ensures
        match quoted(s, j, q) {
            Ok(e) => e <= s.len(),
            Err(_) => true,
        },
    decreases s.len() - j,
{
    if 0 <= j < s.len() {
        if s[j] == '\\' {
            if j + 1 < s.len() {
                lemma_quoted_bound(s, j + 2, q);
            }
        } else {
            lemma_quoted_bound(s, j + 1, q);
        }
    }
}

/// No pattern other than a spelling matches more than the whole of a word.
proof fn lemma_pattern_bounds(w: Seq<char>)
    ensures
        cn_run(w, 0) <= w.len(),
        ident_len(w, 0) <= w.len(),
        float_len(w, 0) <= w.len(),
        digit_run(w, 0) <= w.len(),
        string_len(w, 0) <= w.len(),
        comment_len(w, 0) <= w.len(),
        blank_run(w, 0) <= w.len(),
{
    lemma_cn_run_bound(w, 0);
    lemma_ident_run_bound(w, 0);
    if w.len() > 0 {
        lemma_ident_run_bound(w, 1);
    }
    lemma_digit_run_bound(w, 0);
    let d = digit_run(w, 0);
    if d > 0 && d < w.len() {
        lemma_digit_run_bound(w, d + 1);
    }
    lemma_blank_run_bound(w, 0);
    match string_open(w, 0) {
        Some((q, b)) => lemma_quoted_bound(w, b, q),
        None => {},
    }
}

/// In a word alone, the longest spelling found at its start is never longer than the word,
/// and is the whole word exactly when the table spells it; the token is then the one that
/// the table gives that spelling.
proof fn lemma_longest_in_word(tab: Seq<(Seq<char>, Token)>, w: Seq<char>, k: Token)
    requires
        w.len() > 0,
        forall|m: int| 0 <= m < tab.len() && (#[trigger] tab[m]).0 == w ==> tab[m].1 == k,
    ensures
        match longest_literal(tab, w, 0) {
            Some((t, n)) => 0 < n <= w.len() && (n == w.len() ==> t == k),
            None => true,
        },
        (exists|m: int| 0 <= m < tab.len() && (#[trigger] tab[m]).0 == w) ==> longest_literal(tab, w, 0)
            == Some((k, w.len() as int)),
        (forall|m: int| 0 <= m < tab.len() ==> (#[trigger] tab[m]).0 != w) ==> match longest_literal(tab, w, 0) {
            Some((_, n)) => n < w.len(),
            None => true,
        },
    decreases tab.len(),
{
    if tab.len() > 0 {
        let r = tab.drop_last();
        assert forall|m: int| 0 <= m < r.len() && (#[trigger] r[m]).0 == w implies r[m].1 == k by {
            assert(r[m] == tab[m]);
        }
        lemma_longest_in_word(r, w, k);
        let lit = tab.last().0;
        assert(tab.last() == tab[tab.len() - 1]);
        if lit.len() == w.len() && starts_at(w, 0, lit) {
            assert(w.subrange(0, w.len() as int) =~= w);
        }
        if exists|m: int| 0 <= m < tab.len() && (#[trigger] tab[m]).0 == w {
            let m = choose|m: int| 0 <= m < tab.len() && (#[trigger] tab[m]).0 == w;
            if m < r.len() {
                assert(r[m] == tab[m]);
            } else {
                assert(w.subrange(0, w.len() as int) =~= w);
            }
        }
        if forall|m: int| 0 <= m < tab.len() ==> (#[trigger] tab[m]).0 != w {
            assert forall|m: int| 0 <= m < r.len() implies (#[trigger] r[m]).0 != w by {
                assert(r[m] == tab[m]);
            }
        }
    }
}

/// A fixed spelling standing alone is read as one token: the one that the table gives it.
pub proof fn lemma_spelling_scans_alone(j: int)
    requires
        0 <= j < literals().len(),
        literals()[j].0.len() > 0,
        forall|m: int| 0 <= m < literals().len() && (#[trigger] literals()[m]).0 == literals()[j].0 ==> literals()[m].1
            == literals()[j].1,
    ensures
        scan(literals()[j].0, 0) == seq![(lex_kind(literals()[j].1), literals()[j].0)],
{
    let w = literals()[j].0;
    let k = literals()[j].1;
    lemma_longest_in_word(literals(), w, k);
    assert(literals()[j].0 == w);
    lemma_pattern_bounds(w);
    assert(best_match(w, 0) == Some((Pattern::Literal(k), w.len() as int)));
    assert(w.subrange(0, w.len() as int) =~= w);
    assert(scan(w, w.len() as int) == Seq::<TokView>::empty());
    assert(scan(w, 0) =~= seq![(lex_kind(k), w)]);
}

/// An identifier standing alone, which no fixed spelling spells and which is not all Chinese
/// numerals, is read as one token: a built-in with its English name, or a plain identifier.
pub proof fn lemma_identifier_scans_alone(w: Seq<char>)
    requires
        w.len() > 0,
        ident_len(w, 0) == w.len(),
        cn_run(w, 0) < w.len(),
        forall|m: int| 0 <= m < literals().len() ==> (#[trigger] literals()[m]).0 != w,
    ensures
        scan(w, 0) == seq![(ident_kind(w), w)],
{
    lemma_longest_in_word(literals(), w, Token::Identifier);
    lemma_pattern_bounds(w);
    assert(best_match(w, 0) == Some((Pattern::Ident, w.len() as int)));
    assert(w.subrange(0, w.len() as int) =~= w);
    assert(scan(w, w.len() as int) == Seq::<TokView>::empty());
    assert(scan(w, 0) =~= seq![(ident_kind(w), w)]);
}

/// A sequence of token views in which a `ChineseNumber` token only holds a numeral that is
/// not `convertible`.
pub open spec fn numerals_unconverted_only_out_of_range(s: Seq<TokView>) -> bool {
    forall|j: int| 0 <= j < s.len() && #[trigger] s[j].0 == LexKind::Plain(Token::ChineseNumber) ==> !convertible(
        s[j].1,
    )
}

/// A line's tokens hold a Chinese numeral unconverted only where it is not `convertible`.
pub proof fn lemma_scan_numerals(s: Seq<char>, i: int)
    ensures
        numerals_unconverted_only_out_of_range(scan(s, i)),
    decreases s.len() - i,
{
    if 0 <= i < s.len() {
        lemma_literals_no_layout();
        lemma_longest_no_layout(literals(), s, i);
        match best_match(s, i) {
            Some((p, n)) => {
                if 0 < n <= s.len() - i {
                    lemma_scan_numerals(s, i + n);
                    let e = emitted(p, s.subrange(i, i + n));
                    let r = scan(s, i + n);
                    assert forall|j: int| 0 <= j < (e + r).len() && #[trigger] (e + r)[j].0 == LexKind::Plain(
                        Token::ChineseNumber,
                    ) implies !convertible((e + r)[j].1) by {
                        if j < e.len() {
                            assert((e + r)[j] == e[j]);
                        } else {
                            assert((e + r)[j] == r[j - e.len()]);
                        }
                    }
                }
            },
            None => {
                let e = error_len(s, i);
                if 0 < e <= s.len() - i {
                    lemma_scan_numerals(s, i + e);
                }
            },
        }
    }
}

/// The spellings table held as vectors of characters.
pub open spec fn table_view(v: Seq<(Vec<char>, Token)>) -> Seq<(Seq<char>, Token)> {
    v.map_values(|x: (Vec<char>, Token)| (x.0@, x.1))
}

fn literal_table_1(v: &mut Vec<(Vec<char>, Token)>)
    ensures
        table_view(final(v)@) == table_view(old(v)@) + literals_1(),
{
    let ghost o = v@;
    v.push((chars_of("def"), Token::Def));
    v.push((chars_of("定义"), Token::Def));
    v.push((chars_of("if"), Token::If));
    v.push((chars_of("如果"), Token::If));
    v.push((chars_of("else"), Token::Else));
    v.push((chars_of("否则"), Token::Else));
    v.push((chars_of("elif"), Token::Elif));
    v.push((chars_of("要不然"), Token::Elif));
    v.push((chars_of("for"), Token::For));
    v.push((chars_of("迭代"), Token::For));
    v.push((chars_of("while"), Token::While));
    v.push((chars_of("当"), Token::While));
    v.push((chars_of("in"), Token::In));
    v.push((chars_of("在"), Token::In));
    v.push((chars_of("is"), Token::Is));
    v.push((chars_of("是"), Token::Is));
    assert(table_view(v@) =~= table_view(o) + literals_1());
}

fn literal_table_2(v: &mut Vec<(Vec<char>, Token)>)
    ensures
        table_view(final(v)@) == table_view(old(v)@) + literals_2(),
{
    let ghost o = v@;
    v.push((chars_of("not"), Token::Not));
    v.push((chars_of("不是"), Token::Not));
    v.push((chars_of("and"), Token::And));
    v.push((chars_of("和"), Token::And));
    v.push((chars_of("or"), Token::Or));
    v.push((chars_of("或"), Token::Or));
    v.push((chars_of("None"), Token::NoneKw));
    v.push((chars_of("空"), Token::NoneKw));
    v.push((chars_of("True"), Token::True));
    v.push((chars_of("真"), Token::True));
    v.push((chars_of("False"), Token::False));
    v.push((chars_of("假"), Token::False));
    v.push((chars_of("return"), Token::Return));
    v.push((chars_of("返回"), Token::Return));
    v.push((chars_of("break"), Token::Break));
    v.push((chars_of("跳出"), Token::Break));
    assert(table_view(v@) =~= table_view(o) + literals_2());
}

fn literal_table_3(v: &mut Vec<(Vec<char>, Token)>)
    ensures
        table_view(final(v)@) == table_view(old(v)@) + literals_3(),
{
    let ghost o = v@;
    v.push((chars_of("continue"), Token::Continue));
    v.push((chars_of("继续"), Token::Continue));
    v.push((chars_of("pass"), Token::Pass));
    v.push((chars_of("过"), Token::Pass));
    v.push((chars_of("import"), Token::Import));
    v.push((chars_of("导入"), Token::Import));
    v.push((chars_of("from"), Token::From));
    v.push((chars_of("从"), Token::From));
    v.push((chars_of("as"), Token::As));
    v.push((chars_of("作为"), Token::As));
    v.push((chars_of("class"), Token::Class));
    v.push((chars_of("类"), Token::Class));
    v.push((chars_of("try"), Token::Try));
    v.push((chars_of("尝试"), Token::Try));
    v.push((chars_of("except"), Token::Except));
    v.push((chars_of("意外情况"), Token::Except));
    assert(table_view(v@) =~= table_view(o) + literals_3());
}

fn literal_table_4(v: &mut Vec<(Vec<char>, Token)>)
    ensures
        table_view(final(v)@) == table_view(old(v)@) + literals_4(),
{
    let ghost o = v@;
    v.push((chars_of("finally"), Token::Finally));
    v.push((chars_of("最终"), Token::Finally));
    v.push((chars_of("raise"), Token::Raise));
    v.push((chars_of("举起"), Token::Raise));
    v.push((chars_of("assert"), Token::Assert));
    v.push((chars_of("断言"), Token::Assert));
    v.push((chars_of("del"), Token::Del));
    v.push((chars_of("删除"), Token::Del));
    v.push((chars_of("global"), Token::Global));
    v.push((chars_of("全局的"), Token::Global));
    v.push((chars_of("nonlocal"), Token::Nonlocal));
    v.push((chars_of("非局部"), Token::Nonlocal));
    v.push((chars_of("lambda"), Token::Lambda));
    v.push((chars_of("拉姆达"), Token::Lambda));
    v.push((chars_of("yield"), Token::Yield));
    v.push((chars_of("产出"), Token::Yield));
    assert(table_view(v@) =~= table_view(o) + literals_4());
}

fn literal_table_5(v: &mut Vec<(Vec<char>, Token)>)
    ensures
        table_view(final(v)@) == table_view(old(v)@) + literals_5(),
{
    let ghost o = v@;
    v.push((chars_of("await"), Token::Await));
    v.push((chars_of("等待"), Token::Await));
    v.push((chars_of("async"), Token::Async));
    v.push((chars_of("异步的"), Token::Async));
    v.push((chars_of("with"), Token::With));
    v.push((chars_of("带上"), Token::With));
    v.push((chars_of("match"), Token::Match));
    v.push((chars_of("匹配"), Token::Match));
    v.push((chars_of("case"), Token::Case));
    v.push((chars_of("情况"), Token::Case));
    v.push((chars_of("**"), Token::Pow));
    v.push((chars_of("取幂"), Token::Pow));
    v.push((chars_of("//"), Token::FloorDiv));
    v.push((chars_of("地板除"), Token::FloorDiv));
    v.push((chars_of("%"), Token::Mod));
    v.push((chars_of("取余"), Token::Mod));
    assert(table_view(v@) =~= table_view(o) + literals_5());
}

fn literal_table_6(v: &mut Vec<(Vec<char>, Token)>)
    ensures
        table_view(final(v)@) == table_view(old(v)@) + literals_6(),
{
    let ghost o = v@;
    v.push((chars_of("取模"), Token::Mod));
    v.push((chars_of("="), Token::Equal));
    v.push((chars_of("赋值为"), Token::Equal));
    v.push((chars_of("+"), Token::Plus));
    v.push((chars_of("加"), Token::Plus));
    v.push((chars_of("-"), Token::Minus));
    v.push((chars_of("减"), Token::Minus));
    v.push((chars_of("*"), Token::Star));
    v.push((chars_of("乘"), Token::Star));
    v.push((chars_of("/"), Token::Slash));
    v.push((chars_of("除以"), Token::Slash));
    v.push((chars_of("&"), Token::BitwiseAnd));
    v.push((chars_of("按位与"), Token::BitwiseAnd));
    v.push((chars_of("|"), Token::BitwiseOr));
    v.push((chars_of("按位或"), Token::BitwiseOr));
    v.push((chars_of("^"), Token::BitwiseXor));
    assert(table_view(v@) =~= table_view(o) + literals_6());
}

fn literal_table_7(v: &mut Vec<(Vec<char>, Token)>)
    ensures
        table_view(final(v)@) == table_view(old(v)@) + literals_7(),
{
    let ghost o = v@;
    v.push((chars_of("按位异或"), Token::BitwiseXor));
    v.push((chars_of("~"), Token::BitwiseNot));
    v.push((chars_of("按位取反"), Token::BitwiseNot));
    v.push((chars_of("<<"), Token::LeftShift));
    v.push((chars_of("左移"), Token::LeftShift));
    v.push((chars_of(">>"), Token::RightShift));
    v.push((chars_of("右移"), Token::RightShift));
    v.push((chars_of("."), Token::Dot));
    v.push((chars_of("("), Token::LParen));
    v.push((chars_of("（"), Token::LParen));
    v.push((chars_of(")"), Token::RParen));
    v.push((chars_of("）"), Token::RParen));
    v.push((chars_of(":"), Token::Colon));
    v.push((chars_of("："), Token::Colon));
    v.push((chars_of(","), Token::Comma));
    v.push((chars_of("，"), Token::Comma));
    assert(table_view(v@) =~= table_view(o) + literals_7());
}

fn literal_table_8(v: &mut Vec<(Vec<char>, Token)>)
    ensures
        table_view(final(v)@) == table_view(old(v)@) + literals_8(),
{
    let ghost o = v@;
    v.push((chars_of("=="), Token::DoubleEqual));
    v.push((chars_of("等于"), Token::DoubleEqual));
    v.push((chars_of("!="), Token::NotEqual));
    v.push((chars_of("！="), Token::NotEqual));
    v.push((chars_of("不等于"), Token::NotEqual));
    v.push((chars_of("<"), Token::Less));
    v.push((chars_of("《"), Token::Less));
    v.push((chars_of("小于"), Token::Less));
    v.push((chars_of("<="), Token::LessEqual));
    v.push((chars_of("《="), Token::LessEqual));
    v.push((chars_of("小于等于"), Token::LessEqual));
    v.push((chars_of(">"), Token::Greater));
    v.push((chars_of("》"), Token::Greater));
    v.push((chars_of("大于"), Token::Greater));
    v.push((chars_of(">="), Token::GreaterEqual));
    v.push((chars_of("》="), Token::GreaterEqual));
    assert(table_view(v@) =~= table_view(o) + literals_8());
}

fn literal_table_9(v: &mut Vec<(Vec<char>, Token)>)
    ensures
        table_view(final(v)@) == table_view(old(v)@) + literals_9(),
{
    let ghost o = v@;
    v.push((chars_of("大于等于"), Token::GreaterEqual));
    v.push((chars_of("["), Token::LBracket));
    v.push((chars_of("【"), Token::LBracket));
    v.push((chars_of("]"), Token::RBracket));
    v.push((chars_of("】"), Token::RBracket));
    v.push((chars_of("{"), Token::LBrace));
    v.push((chars_of("}"), Token::RBrace));
    assert(table_view(v@) =~= table_view(o) + literals_9());
}

/// The table of fixed spellings.
pub fn literal_table() -> (v: Vec<(Vec<char>, Token)>)
    ensures
        table_view(v@) == literals(),
{
    let mut v: Vec<(Vec<char>, Token)> = Vec::new();
    assert(table_view(v@) =~= Seq::empty());
    literal_table_1(&mut v);
    literal_table_2(&mut v);
    literal_table_3(&mut v);
    literal_table_4(&mut v);
    literal_table_5(&mut v);
    literal_table_6(&mut v);
    literal_table_7(&mut v);
    literal_table_8(&mut v);
    literal_table_9(&mut v);
    assert(table_view(v@) =~= literals());
    v
}

/// A copy of a token.
fn copy_token(t: &Token) -> (r: Token)
    ensures
        r == *t,
{
    match t {
        Token::Def => Token::Def,
        Token::If => Token::If,
        Token::Else => Token::Else,
        Token::Elif => Token::Elif,
        Token::For => Token::For,
        Token::While => Token::While,
        Token::In => Token::In,
        Token::Is => Token::Is,
        Token::Not => Token::Not,
        Token::And => Token::And,
        Token::Or => Token::Or,
        Token::NoneKw => Token::NoneKw,
        Token::True => Token::True,
        Token::False => Token::False,
        Token::Return => Token::Return,
        Token::Break => Token::Break,
        Token::Continue => Token::Continue,
        Token::Pass => Token::Pass,
        Token::Import => Token::Import,
        Token::From => Token::From,
        Token::As => Token::As,
        Token::Class => Token::Class,
        Token::Try => Token::Try,
        Token::Except => Token::Except,
        Token::Finally => Token::Finally,
        Token::Raise => Token::Raise,
        Token::Assert => Token::Assert,
        Token::Del => Token::Del,
        Token::Global => Token::Global,
        Token::Nonlocal => Token::Nonlocal,
        Token::Lambda => Token::Lambda,
        Token::Yield => Token::Yield,
        Token::Await => Token::Await,
        Token::Async => Token::Async,
        Token::With => Token::With,
        Token::Match => Token::Match,
        Token::Case => Token::Case,
        Token::BuiltInFunc(s) => Token::BuiltInFunc(s.clone()),
        Token::Identifier => Token::Identifier,
        Token::Float => Token::Float,
        Token::Integer => Token::Integer,
        Token::ChineseNumber => Token::ChineseNumber,
        Token::String => Token::String,
        Token::Pow => Token::Pow,
        Token::FloorDiv => Token::FloorDiv,
        Token::Mod => Token::Mod,
        Token::Equal => Token::Equal,
        Token::Plus => Token::Plus,
        Token::Minus => Token::Minus,
        Token::Star => Token::Star,
        Token::Slash => Token::Slash,
        Token::BitwiseAnd => Token::BitwiseAnd,
        Token::BitwiseOr => Token::BitwiseOr,
        Token::BitwiseXor => Token::BitwiseXor,
        Token::BitwiseNot => Token::BitwiseNot,
        Token::LeftShift => Token::LeftShift,
        Token::RightShift => Token::RightShift,
        Token::Dot => Token::Dot,
        Token::LParen => Token::LParen,
        Token::RParen => Token::RParen,
        Token::Colon => Token::Colon,
        Token::Comma => Token::Comma,
        Token::DoubleEqual => Token::DoubleEqual,
        Token::NotEqual => Token::NotEqual,
        Token::Less => Token::Less,
        Token::LessEqual => Token::LessEqual,
        Token::Greater => Token::Greater,
        Token::GreaterEqual => Token::GreaterEqual,
        Token::LBracket => Token::LBracket,
        Token::RBracket => Token::RBracket,
        Token::LBrace => Token::LBrace,
        Token::RBrace => Token::RBrace,
        Token::Newline => Token::Newline,
        Token::Comment => Token::Comment,
        Token::Indent => Token::Indent,
        Token::Dedent => Token::Dedent,
        Token::Error => Token::Error,
    }
}

/// Whether `s` holds `lit` at `i`.
fn starts_with_at(s: &Vec<char>, i: usize, lit: &Vec<char>) -> (b: bool)
    requires
        s@.len() < usize::MAX,
    ensures
        b == starts_at(s@, i as int, lit@),
{
    if i > s.len() || lit.len() > s.len() - i {
        return false;
    }
    let mut j: usize = 0;
    while j < lit.len()
        invariant
            i + lit@.len() <= s@.len() < usize::MAX,
            j <= lit@.len(),
            forall|k: int| 0 <= k < j ==> s@[i + k] == lit@[k],
        decreases lit@.len() - j,
    {
        if s[i + j] != lit[j] {
            assert(s@.subrange(i as int, i + lit@.len())[j as int] != lit@[j as int]);
            return false;
        }
        j += 1;
    }
    assert(s@.subrange(i as int, i + lit@.len()) =~= lit@);
    true
}

/// The longest spelling of `tab` at `i`: its index in the table and its length.
fn longest_literal_exec(tab: &Vec<(Vec<char>, Token)>, s: &Vec<char>, i: usize) -> (r: Option<(usize, usize)>)
    requires
        s@.len() < usize::MAX,
    ensures
        match longest_literal(table_view(tab@), s@, i as int) {
            Some((k, n)) => r is Some && r.unwrap().0 < tab@.len() && tab@[r.unwrap().0 as int].1 == k
                && r.unwrap().1 == n,
            None => r is None,
        },
{
    let ghost tv = table_view(tab@);
    let mut best: Option<(usize, usize)> = None;
    let mut j: usize = 0;
    while j < tab.len()
        invariant
            j <= tab@.len(),
            s@.len() < usize::MAX,
            tv == table_view(tab@),
            match longest_literal(tv.take(j as int), s@, i as int) {
                Some((k, n)) => best is Some && best.unwrap().0 < tab@.len() && tab@[best.unwrap().0 as int].1 == k
                    && best.unwrap().1 == n,
                None => best is None,
            },
        decreases tab@.len() - j,
    {
        proof {
            assert(tv.take(j + 1).drop_last() =~= tv.take(j as int));
            assert(tv.take(j + 1).last() == tv[j as int]);
        }
        let lit = &tab[j].0;
        if lit.len() > 0 && starts_with_at(s, i, lit) {
            let longer_than_best = match best {
                None => true,
                Some((_, n)) => n < lit.len(),
            };
            if longer_than_best {
                best = Some((j, lit.len()));
            }
        }
        j += 1;
    }
    assert(tv.take(tab@.len() as int) =~= tv);
    best
}

fn is_ident_start_exec(c: char) -> (b: bool)
    ensures
        b == is_ident_start(c),
{
    ('a' <= c && c <= 'z') || ('A' <= c && c <= 'Z') || c == '_' || ('\u{4e00}' <= c && c <= '\u{9fa5}')
}

fn is_ident_char_exec(c: char) -> (b: bool)
    ensures
        b == is_ident_char(c),
{
    is_ident_start_exec(c) || ('0' <= c && c <= '9')
}

fn is_cn_numeral_exec(c: char) -> (b: bool)
    ensures
        b == is_cn_numeral(c),
{
    c == '点' || c == '零' || c == '一' || c == '二' || c == '三' || c == '四' || c == '五' || c == '六'
        || c == '七' || c == '八' || c == '九' || c == '十' || c == '百' || c == '千' || c == '万'
        || c == '亿' || c == '壹' || c == '贰' || c == '叁' || c == '肆' || c == '伍' || c == '陆'
        || c == '柒' || c == '捌' || c == '玖' || c == '拾' || c == '佰' || c == '仟'
}

fn ident_run_exec(s: &Vec<char>, i: usize) -> (n: usize)
    requires
        i <= s@.len() < usize::MAX,
    ensures
        n == ident_run(s@, i as int),
        i + n <= s@.len(),
{
    let mut j = i;
    while j < s.len() && is_ident_char_exec(s[j])
        invariant
            i <= j <= s@.len(),
            ident_run(s@, i as int) == (j - i) + ident_run(s@, j as int),
        decreases s@.len() - j,
    {
        j += 1;
    }
    j - i
}

fn digit_run_exec(s: &Vec<char>, i: usize) -> (n: usize)
    requires
        i <= s@.len() < usize::MAX,
    ensures
        n == digit_run(s@, i as int),
        i + n <= s@.len(),
{
    let mut j = i;
    while j < s.len() && '0' <= s[j] && s[j] <= '9'
        invariant
            i <= j <= s@.len(),
            digit_run(s@, i as int) == (j - i) + digit_run(s@, j as int),
        decreases s@.len() - j,
    {
        j += 1;
    }
    j - i
}

fn cn_run_exec(s: &Vec<char>, i: usize) -> (n: usize)
    requires
        i <= s@.len() < usize::MAX,
    ensures
        n == cn_run(s@, i as int),
        i + n <= s@.len(),
{
    let mut j = i;
    while j < s.len() && is_cn_numeral_exec(s[j])
        invariant
            i <= j <= s@.len(),
            cn_run(s@, i as int) == (j - i) + cn_run(s@, j as int),
        decreases s@.len() - j,
    {
        j += 1;
    }
    j - i
}

fn blank_run_exec(s: &Vec<char>, i: usize) -> (n: usize)
    requires
        i <= s@.len() < usize::MAX,
    ensures
        n == blank_run(s@, i as int),
        i + n <= s@.len(),
{
    let mut j = i;
    while j < s.len() && (s[j] == ' ' || s[j] == '\t' || s[j] == '\r')
        invariant
            i <= j <= s@.len(),
            blank_run(s@, i as int) == (j - i) + blank_run(s@, j as int),
        decreases s@.len() - j,
    {
        j += 1;
    }
    j - i
}

fn ident_len_exec(s: &Vec<char>, i: usize) -> (n: usize)
    requires
        i < s@.len() < usize::MAX,
    ensures
        n == ident_len(s@, i as int),
{
    if is_ident_start_exec(s[i]) {
        1 + ident_run_exec(s, i + 1)
    } else {
        0
    }
}

fn float_len_exec(s: &Vec<char>, i: usize) -> (n: usize)
    requires
        i < s@.len() < usize::MAX,
    ensures
        n == float_len(s@, i as int),
{
    let d = digit_run_exec(s, i);
    if d > 0 && i + d < s.len() && s[i + d] == '.' {
        let e = digit_run_exec(s, i + d + 1);
        if e > 0 {
            return d + 1 + e;
        }
    }
    0
}

fn closes_exec(q: &Quote, c: char) -> (b: bool)
    ensures
        b == closes(*q, c),
{
    match q {
        Quote::Single => c == '\'',
        Quote::Double => c == '"',
        Quote::Curly => c == '“' || c == '”',
        Quote::Corner => c == '’',
    }
}

fn excluded_exec(q: &Quote, c: char) -> (b: bool)
    ensures
        b == excluded(*q, c),
{
    match q {
        Quote::Single => c == '\'',
        Quote::Double => c == '"',
        Quote::Curly => c == '“' || c == '”',
        Quote::Corner => c == '‘' || c == '’',
    }
}

fn string_open_exec(s: &Vec<char>, i: usize) -> (r: Option<(Quote, usize)>)
    requires
        i < s@.len() < usize::MAX,
    ensures
        match string_open(s@, i as int) {
            Some((q, b)) => r is Some && r.unwrap().0 == q && r.unwrap().1 == b,
            None => r is None,
        },
{
    let c = s[i];
    if c == '\'' {
        Some((Quote::Single, i + 1))
    } else if c == '"' {
        Some((Quote::Double, i + 1))
    } else if c == '“' || c == '”' {
        Some((Quote::Curly, i + 1))
    } else if c == '‘' {
        Some((Quote::Corner, i + 1))
    } else if c == 'f' && i + 1 < s.len() && s[i + 1] == '\'' {
        Some((Quote::Single, i + 2))
    } else if c == 'f' && i + 1 < s.len() && s[i + 1] == '"' {
        Some((Quote::Double, i + 2))
    } else {
        None
    }
}

fn quoted_exec(s: &Vec<char>, j0: usize, q: &Quote) -> (r: Result<usize, usize>)
    requires
        j0 <= s@.len() < usize::MAX,
    ensures
        r is Ok ==> j0 < r.unwrap() <= s@.len(),
        r is Err ==> j0 <= r->Err_0 <= s@.len(),
        match quoted(s@, j0 as int, *q) {
            Ok(e) => r is Ok && r.unwrap() == e,
            Err(x) => r is Err && r->Err_0 == x,
        },
{
    let mut j = j0;
    while j < s.len()
        invariant
            j0 <= j <= s@.len() < usize::MAX,
            quoted(s@, j0 as int, *q) == quoted(s@, j as int, *q),
        decreases s@.len() - j,
    {
        let c = s[j];
        if c == '\\' {
            if j + 1 < s.len() {
                j += 2;
            } else {
                return Err(s.len());
            }
        } else if closes_exec(q, c) {
            return Ok(j + 1);
        } else if excluded_exec(q, c) {
            return Err(j);
        } else {
            j += 1;
        }
    }
    Err(s.len())
}

fn string_len_exec(s: &Vec<char>, i: usize) -> (n: usize)
    requires
        i < s@.len() < usize::MAX,
    ensures
        n == string_len(s@, i as int),
{
    match string_open_exec(s, i) {
        Some((q, b)) => {
            if b > s.len() {
                return 0;
            }
            match quoted_exec(s, b, &q) {
                Ok(e) => {
                    if e >= i {
                        e - i
                    } else {
                        0
                    }
                },
                Err(_) => 0,
            }
        },
        None => 0,
    }
}

/// The English name of a built-in, given its Chinese or English spelling.
pub fn builtin_name_exec(s: &String) -> (r: Option<String>)
    ensures
        opt_string_view(r) == builtin_name(s@),
{
    if is_text(s, "打印") || is_text(s, "print") {
        Some("print".to_owned())
    } else if is_text(s, "范围") || is_text(s, "range") {
        Some("range".to_owned())
    } else if is_text(s, "整数") || is_text(s, "int") {
        Some("int".to_owned())
    } else if is_text(s, "小数") || is_text(s, "float") {
        Some("float".to_owned())
    } else if is_text(s, "字符串") || is_text(s, "str") {
        Some("str".to_owned())
    } else if is_text(s, "输入") || is_text(s, "input") {
        Some("input".to_owned())
    } else if is_text(s, "长度") || is_text(s, "len") {
        Some("len".to_owned())
    } else if is_text(s, "列表") || is_text(s, "list") {
        Some("list".to_owned())
    } else if is_text(s, "字典") || is_text(s, "dict") {
        Some("dict".to_owned())
    } else if is_text(s, "集合") || is_text(s, "set") {
        Some("set".to_owned())
    } else if is_text(s, "元组") || is_text(s, "tuple") {
        Some("tuple".to_owned())
    } else if is_text(s, "索引迭代") || is_text(s, "enumerate") {
        Some("enumerate".to_owned())
    } else if is_text(s, "解析") || is_text(s, "eval") {
        Some("eval".to_owned())
    } else if is_text(s, "求和") || is_text(s, "sum") {
        Some("sum".to_owned())
    } else if is_text(s, "最小值") || is_text(s, "min") {
        Some("min".to_owned())
    } else if is_text(s, "最大值") || is_text(s, "max") {
        Some("max".to_owned())
    } else if is_text(s, "绝对值") || is_text(s, "abs") {
        Some("abs".to_owned())
    } else if is_text(s, "全部为真") || is_text(s, "all") {
        Some("all".to_owned())
    } else if is_text(s, "有一个为真") || is_text(s, "any") {
        Some("any".to_owned())
    } else if is_text(s, "映射") || is_text(s, "map") {
        Some("map".to_owned())
    } else if is_text(s, "过滤") || is_text(s, "filter") {
        Some("filter".to_owned())
    } else if is_text(s, "拉链") || is_text(s, "zip") {
        Some("zip".to_owned())
    } else if is_text(s, "打开") || is_text(s, "open") {
        Some("open".to_owned())
    } else if is_text(s, "执行") || is_text(s, "exec") {
        Some("exec".to_owned())
    } else if is_text(s, "类型") || is_text(s, "type") {
        Some("type".to_owned())
    } else if is_text(s, "实例判断") || is_text(s, "isinstance") {
        Some("isinstance".to_owned())
    } else if is_text(s, "子类判断") || is_text(s, "issubclass") {
        Some("issubclass".to_owned())
    } else if is_text(s, "目录") || is_text(s, "dir") {
        Some("dir".to_owned())
    } else if is_text(s, "变量") || is_text(s, "vars") {
        Some("vars".to_owned())
    } else if is_text(s, "本地变量") || is_text(s, "locals") {
        Some("locals".to_owned())
    } else if is_text(s, "全局变量") || is_text(s, "globals") {
        Some("globals".to_owned())
    } else if is_text(s, "帮助") || is_text(s, "help") {
        Some("help".to_owned())
    } else if is_text(s, "编号") || is_text(s, "id") {
        Some("id".to_owned())
    } else if is_text(s, "排序") || is_text(s, "sorted") {
        Some("sorted".to_owned())
    } else if is_text(s, "父类") || is_text(s, "super") {
        Some("super".to_owned())
    } else if is_text(s, "对象") || is_text(s, "object") {
        Some("object".to_owned())
    } else if is_text(s, "类方法") || is_text(s, "classmethod") {
        Some("classmethod".to_owned())
    } else if is_text(s, "静态方法") || is_text(s, "staticmethod") {
        Some("staticmethod".to_owned())
    } else if is_text(s, "属性") || is_text(s, "property") {
        Some("property".to_owned())
    } else if is_text(s, "异常") || is_text(s, "Exception") {
        Some("Exception".to_owned())
    } else if is_text(s, "魔法初始化") || is_text(s, "__init__") {
        Some("__init__".to_owned())
    } else if is_text(s, "魔法新建") || is_text(s, "__new__") {
        Some("__new__".to_owned())
    } else if is_text(s, "魔法销毁") || is_text(s, "__del__") {
        Some("__del__".to_owned())
    } else if is_text(s, "魔法字符串表示") || is_text(s, "__str__") {
        Some("__str__".to_owned())
    } else if is_text(s, "魔法表达式") || is_text(s, "__repr__") {
        Some("__repr__".to_owned())
    } else if is_text(s, "魔法字节表示") || is_text(s, "__bytes__") {
        Some("__bytes__".to_owned())
    } else if is_text(s, "魔法格式化") || is_text(s, "__format__") {
        Some("__format__".to_owned())
    } else if is_text(s, "魔法等于") || is_text(s, "__eq__") {
        Some("__eq__".to_owned())
    } else if is_text(s, "魔法不等于") || is_text(s, "__ne__") {
        Some("__ne__".to_owned())
    } else if is_text(s, "魔法小于") || is_text(s, "__lt__") {
        Some("__lt__".to_owned())
    } else if is_text(s, "魔法小于等于") || is_text(s, "__le__") {
        Some("__le__".to_owned())
    } else if is_text(s, "魔法大于") || is_text(s, "__gt__") {
        Some("__gt__".to_owned())
    } else if is_text(s, "魔法大于等于") || is_text(s, "__ge__") {
        Some("__ge__".to_owned())
    } else if is_text(s, "魔法哈希") || is_text(s, "__hash__") {
        Some("__hash__".to_owned())
    } else if is_text(s, "魔法布尔") || is_text(s, "__bool__") {
        Some("__bool__".to_owned())
    } else if is_text(s, "魔法属性获取") || is_text(s, "__getattr__") {
        Some("__getattr__".to_owned())
    } else if is_text(s, "魔法属性设置") || is_text(s, "__setattr__") {
        Some("__setattr__".to_owned())
    } else if is_text(s, "魔法属性删除") || is_text(s, "__delattr__") {
        Some("__delattr__".to_owned())
    } else if is_text(s, "魔法属性获取项") || is_text(s, "__getitem__") {
        Some("__getitem__".to_owned())
    } else if is_text(s, "魔法属性设置项") || is_text(s, "__setitem__") {
        Some("__setitem__".to_owned())
    } else if is_text(s, "魔法属性删除项") || is_text(s, "__delitem__") {
        Some("__delitem__".to_owned())
    } else if is_text(s, "魔法长度") || is_text(s, "__len__") {
        Some("__len__".to_owned())
    } else if is_text(s, "魔法可迭代") || is_text(s, "__iter__") {
        Some("__iter__".to_owned())
    } else if is_text(s, "魔法迭代下一个") || is_text(s, "__next__") {
        Some("__next__".to_owned())
    } else if is_text(s, "魔法反转") || is_text(s, "__reversed__") {
        Some("__reversed__".to_owned())
    } else if is_text(s, "魔法包含") || is_text(s, "__contains__") {
        Some("__contains__".to_owned())
    } else if is_text(s, "魔法加") || is_text(s, "__add__") {
        Some("__add__".to_owned())
    } else if is_text(s, "魔法减") || is_text(s, "__sub__") {
        Some("__sub__".to_owned())
    } else if is_text(s, "魔法乘") || is_text(s, "__mul__") {
        Some("__mul__".to_owned())
    } else if is_text(s, "魔法除") || is_text(s, "__truediv__") {
        Some("__truediv__".to_owned())
    } else if is_text(s, "魔法地板除") || is_text(s, "__floordiv__") {
        Some("__floordiv__".to_owned())
    } else if is_text(s, "魔法取余") || is_text(s, "__mod__") {
        Some("__mod__".to_owned())
    } else if is_text(s, "魔法取幂") || is_text(s, "__pow__") {
        Some("__pow__".to_owned())
    } else if is_text(s, "魔法左移") || is_text(s, "__lshift__") {
        Some("__lshift__".to_owned())
    } else if is_text(s, "魔法右移") || is_text(s, "__rshift__") {
        Some("__rshift__".to_owned())
    } else if is_text(s, "魔法按位与") || is_text(s, "__and__") {
        Some("__and__".to_owned())
    } else if is_text(s, "魔法按位或") || is_text(s, "__or__") {
        Some("__or__".to_owned())
    } else if is_text(s, "魔法按位异或") || is_text(s, "__xor__") {
        Some("__xor__".to_owned())
    } else if is_text(s, "魔法取反") || is_text(s, "__invert__") {
        Some("__invert__".to_owned())
    } else if is_text(s, "魔法可调用") || is_text(s, "__call__") {
        Some("__call__".to_owned())
    } else if is_text(s, "魔法进入") || is_text(s, "__enter__") {
        Some("__enter__".to_owned())
    } else if is_text(s, "魔法退出") || is_text(s, "__exit__") {
        Some("__exit__".to_owned())
    } else if is_text(s, "魔法拷贝") || is_text(s, "__copy__") {
        Some("__copy__".to_owned())
    } else if is_text(s, "魔法深拷贝") || is_text(s, "__deepcopy__") {
        Some("__deepcopy__".to_owned())
    } else {
        None
    }
}

/// The token of a converted Chinese numeral: a decimal when its text holds a point, an
/// integer otherwise; the text is kept.
pub fn number_token(converted: String) -> (r: (Token, String))
    ensures
        lex_kind(r.0) == number_kind(converted@),
        r.1@ == converted@,
{
    let cs = chars_of(converted.as_str());
    let mut has_point = false;
    let mut i: usize = 0;
    while i < cs.len()
        invariant
            i <= cs@.len(),
            has_point == (exists|k: int| 0 <= k < i && cs@[k] == '.'),
        decreases cs@.len() - i,
    {
        if cs[i] == '.' {
            has_point = true;
        }
        i += 1;
    }
    proof {
        if has_point {
            let k = choose|k: int| 0 <= k < cs@.len() && cs@[k] == '.';
            assert(converted@[k] == '.');
        }
    }
    if has_point {
        (Token::Float, converted)
    } else {
        (Token::Integer, converted)
    }
}

fn error_len_exec(s: &Vec<char>, i: usize) -> (n: usize)
    requires
        i < s@.len() < usize::MAX,
    ensures
        n == error_len(s@, i as int),
{
    match string_open_exec(s, i) {
        Some((q, b)) => {
            if b > s.len() {
                return 1;
            }
            match quoted_exec(s, b, &q) {
                Err(x) => {
                    if x > i {
                        x - i
                    } else {
                        1
                    }
                },
                Ok(_) => 1,
            }
        },
        None => 1,
    }
}

/// A match with its length as an integer.
pub open spec fn match_view(o: Option<(Pattern, usize)>) -> Option<(Pattern, int)> {
    match o {
        Some((p, n)) => Some((p, n as int)),
        None => None,
    }
}

fn longer_exec(best: Option<(Pattern, usize)>, p: Pattern, n: usize) -> (r: Option<(Pattern, usize)>)
    ensures
        match_view(r) == longer(match_view(best), p, n as int),
{
    let replace = match &best {
        None => n > 0,
        Some((_, m)) => n > 0 && *m < n,
    };
    if replace {
        Some((p, n))
    } else {
        best
    }
}

/// The longest match at `i`, with the table of fixed spellings at hand.
fn best_match_exec(tab: &Vec<(Vec<char>, Token)>, s: &Vec<char>, i: usize) -> (r: Option<(Pattern, usize)>)
    requires
        table_view(tab@) == literals(),
        i < s@.len() < usize::MAX,
    ensures
        match_view(r) == best_match(s@, i as int),
{
    let lit = match longest_literal_exec(tab, s, i) {
        Some((j, n)) => Some((Pattern::Literal(copy_token(&tab[j].1)), n)),
        None => None,
    };
    let m1 = longer_exec(lit, Pattern::Numeral, cn_run_exec(s, i));
    let m2 = longer_exec(m1, Pattern::Ident, ident_len_exec(s, i));
    let m3 = longer_exec(m2, Pattern::Decimal, float_len_exec(s, i));
    let m4 = longer_exec(m3, Pattern::Int, digit_run_exec(s, i));
    let m5 = longer_exec(m4, Pattern::Str, string_len_exec(s, i));
    let c = if s[i] == '#' {
        s.len() - i
    } else {
        0
    };
    let m6 = longer_exec(m5, Pattern::Comment, c);
    longer_exec(m6, Pattern::Blank, blank_run_exec(s, i))
}

/// Appends the tokens that a match of `p` with text `w` yields.
fn push_match(out: &mut Vec<(Token, String)>, p: Pattern, w: String)
    ensures
        toks_view(final(out)@) == toks_view(old(out)@) + emitted(p, w@),
{
    let ghost o = out@;
    let ghost wv = w@;
    let t = match p {
        Pattern::Literal(k) => (k, w),
        Pattern::Numeral => {
            if is_convertible(&w) {
                number_token(chinese_to_digits(w))
            } else {
                (Token::ChineseNumber, w)
            }
        },
        Pattern::Ident => match builtin_name_exec(&w) {
            Some(e) => (Token::BuiltInFunc(e), w),
            None => (Token::Identifier, w),
        },
        Pattern::Decimal => (Token::Float, w),
        Pattern::Int => (Token::Integer, w),
        Pattern::Str => (Token::String, w),
        Pattern::Comment => (Token::Comment, w),
        Pattern::Blank => {
            assert(toks_view(out@) =~= toks_view(o) + emitted(p, wv));
            return;
        },
    };
    proof {
        lemma_toks_view_push(out@, t);
    }
    out.push(t);
    assert(toks_view(out@) =~= toks_view(o) + emitted(p, wv));
}

/// Appends the tokens of the line `s`.
pub fn scan_line(tab: &Vec<(Vec<char>, Token)>, s: &Vec<char>, out: &mut Vec<(Token, String)>)
    requires
        table_view(tab@) == literals(),
        s@.len() < usize::MAX,
    ensures
        toks_view(final(out)@) == toks_view(old(out)@) + scan(s@, 0),
{
    let ghost o = out@;
    let mut i: usize = 0;
    while i < s.len()
        invariant
            i <= s@.len() < usize::MAX,
            table_view(tab@) == literals(),
            toks_view(o) + scan(s@, 0) == toks_view(out@) + scan(s@, i as int),
        decreases s@.len() - i,
    {
        let ghost before = toks_view(out@);
        match best_match_exec(tab, s, i) {
            Some((p, n)) => {
                if 0 < n && n <= s.len() - i {
                    let w = string_of_range(s, i, i + n);
                    push_match(out, p, w);
                    assert(toks_view(out@) + scan(s@, i + n) =~= before + scan(s@, i as int));
                    i = i + n;
                } else {
                    assert(scan(s@, i as int) =~= Seq::empty());
                    assert(toks_view(out@) + scan(s@, s@.len() as int) =~= before + scan(s@, i as int));
                    i = s.len();
                }
            },
            None => {
                let e = error_len_exec(s, i);
                if 0 < e && e <= s.len() - i {
                    i = i + e;
                } else {
                    assert(toks_view(out@) + scan(s@, s@.len() as int) =~= before + scan(s@, i as int));
                    i = s.len();
                }
            },
        }
    }
    assert(toks_view(out@) =~= toks_view(out@) + scan(s@, i as int));
}

} // verus!
