use pycn::lexer::lex;
use pycn::scan::number_token;
use pycn::chinese_to_digits::is_convertible;
use pycn::token::Token;

fn kinds(code: &str) -> Vec<Token> {
    lex(code).into_iter().map(|(t, _)| t).collect()
}

#[test]
fn lexes_chinese_keywords_and_builtins() {
    let toks = lex("打印（“你好”）\n");
    assert_eq!(
        toks,
        vec![
            (Token::BuiltInFunc("print".to_string()), "打印".to_string()),
            (Token::LParen, "（".to_string()),
            (Token::String, "“你好”".to_string()),
            (Token::RParen, "）".to_string()),
            (Token::Newline, "\n".to_string()),
        ]
    );
}

#[test]
fn indentation_opens_and_closes_levels() {
    let k = kinds("如果 真：\n    过\n");
    assert_eq!(
        k,
        vec![
            Token::If,
            Token::True,
            Token::Colon,
            Token::Newline,
            Token::Indent,
            Token::Pass,
            Token::Newline,
            Token::Dedent,
        ]
    );
}

#[test]
fn dedent_closes_every_deeper_level() {
    let k = kinds("a\n  b\n    c\nd\n");
    let indents = k.iter().filter(|t| **t == Token::Indent).count();
    let dedents = k.iter().filter(|t| **t == Token::Dedent).count();
    assert_eq!(indents, 2);
    assert_eq!(dedents, 2);
    assert_eq!(k[k.len() - 3], Token::Dedent);
    assert_eq!(k[k.len() - 2], Token::Identifier);
}

#[test]
fn blank_and_comment_lines_leave_one_pending_newline() {
    let k = kinds("a\n\n# note\nb\n");
    assert_eq!(
        k,
        vec![Token::Identifier, Token::Newline, Token::Newline, Token::Identifier, Token::Newline]
    );
}

#[test]
fn chinese_numeral_is_converted() {
    let toks = lex("三\n");
    assert_eq!(toks[0], (Token::Integer, "3".to_string()));
}

#[test]
fn number_token_reads_the_point() {
    assert_eq!(number_token("0.1".to_string()), (Token::Float, "0.1".to_string()));
    assert_eq!(number_token("12".to_string()), (Token::Integer, "12".to_string()));
}

#[test]
fn longest_match_wins() {
    assert_eq!(kinds("a <= b\n")[1], Token::LessEqual);
    assert_eq!(kinds("a 小于等于 b\n")[1], Token::LessEqual);
    assert_eq!(kinds("x 不等于 y\n")[1], Token::NotEqual);
    assert_eq!(kinds("加法\n")[0], Token::Identifier);
    assert_eq!(kinds("加\n")[0], Token::Plus);
    assert_eq!(lex("1.5\n")[0], (Token::Float, "1.5".to_string()));
    assert_eq!(kinds("1.\n"), vec![Token::Integer, Token::Dot, Token::Newline]);
}

#[test]
fn strings_and_comments() {
    let toks = lex("x = 'a\\'b' # c\n");
    assert_eq!(toks[2], (Token::String, "'a\\'b'".to_string()));
    assert_eq!(toks[3], (Token::Comment, "# c".to_string()));
    assert_eq!(lex("f\"x\"\n")[0], (Token::String, "f\"x\"".to_string()));
}

#[test]
fn unmatched_characters_are_skipped() {
    assert_eq!(kinds("a $ b\n"), vec![Token::Identifier, Token::Identifier, Token::Newline]);
    assert_eq!(kinds("a 'open\n"), vec![Token::Identifier, Token::Newline]);
}

#[test]
fn crlf_line_endings() {
    assert_eq!(lex("a\r\nb\r\n"), lex("a\nb\n"));
}

#[test]
fn empty_source_has_no_tokens() {
    assert!(lex("").is_empty());
}

#[test]
fn numerals_out_of_range_stay_chinese_numbers() {
    assert_eq!(
        lex("一二三四五六七八九零一万\n"),
        vec![
            (Token::ChineseNumber, "一二三四五六七八九零一万".to_string()),
            (Token::Newline, "\n".to_string())
        ]
    );
    assert_eq!(kinds("x = 亿亿\n"), vec![Token::Identifier, Token::Equal, Token::ChineseNumber, Token::Newline]);
    assert_eq!(lex("x = 三十亿\n")[2], (Token::ChineseNumber, "三十亿".to_string()));
    assert_eq!(lex("九千九百九十九\n")[0], (Token::Integer, "9999".to_string()));
}

#[test]
fn numerals_with_large_units_are_converted() {
    assert_eq!(lex("一万\n")[0], (Token::Integer, "10000".to_string()));
    assert_eq!(lex("三百万\n")[0], (Token::Integer, "3000000".to_string()));
    assert_eq!(lex("五亿\n")[0], (Token::Integer, "500000000".to_string()));
    assert_eq!(lex("二十一亿\n")[0], (Token::Integer, "2100000000".to_string()));
    assert_eq!(lex("一亿五千万\n")[0], (Token::Integer, "150000000".to_string()));
    assert_eq!(lex("一千二百三十四万五千六百七十八\n")[0], (Token::Integer, "12345678".to_string()));
    assert_eq!(lex("x = 一万\n")[2], (Token::Integer, "10000".to_string()));
}

#[test]
fn convertible_numerals() {
    assert!(is_convertible(&"一百二十三".to_string()));
    assert!(is_convertible(&"零点一".to_string()));
    assert!(is_convertible(&"一二三四五六七八九零一".to_string()));
    assert!(!is_convertible(&"一二三四五六七八九零一万".to_string()));
    assert!(!is_convertible(&"亿亿".to_string()));
    assert!(!is_convertible(&"一万亿".to_string()));
    assert!(!is_convertible(&"三十亿".to_string()));
    assert!(is_convertible(&"一万".to_string()));
    assert!(is_convertible(&"三百万".to_string()));
    assert!(is_convertible(&"五亿".to_string()));
    assert!(is_convertible(&"二十一亿".to_string()));
    assert!(is_convertible(&"一亿五千万".to_string()));
    assert!(is_convertible(&"一千二百三十四万五千六百七十八".to_string()));
    assert!(!is_convertible(&"abc".to_string()));
}

#[test]
fn every_spelling_of_a_token_lexes_to_it() {
    let table: Vec<(Vec<&str>, Token)> = vec![
        (vec!["def", "定义"], Token::Def),
        (vec!["if", "如果"], Token::If),
        (vec!["else", "否则"], Token::Else),
        (vec!["elif", "要不然"], Token::Elif),
        (vec!["for", "迭代"], Token::For),
        (vec!["while", "当"], Token::While),
        (vec!["in", "在"], Token::In),
        (vec!["is", "是"], Token::Is),
        (vec!["not", "不是"], Token::Not),
        (vec!["and", "和"], Token::And),
        (vec!["or", "或"], Token::Or),
        (vec!["None", "空"], Token::NoneKw),
        (vec!["True", "真"], Token::True),
        (vec!["False", "假"], Token::False),
        (vec!["return", "返回"], Token::Return),
        (vec!["break", "跳出"], Token::Break),
        (vec!["continue", "继续"], Token::Continue),
        (vec!["pass", "过"], Token::Pass),
        (vec!["import", "导入"], Token::Import),
        (vec!["from", "从"], Token::From),
        (vec!["as", "作为"], Token::As),
        (vec!["class", "类"], Token::Class),
        (vec!["try", "尝试"], Token::Try),
        (vec!["except", "意外情况"], Token::Except),
        (vec!["finally", "最终"], Token::Finally),
        (vec!["raise", "举起"], Token::Raise),
        (vec!["assert", "断言"], Token::Assert),
        (vec!["del", "删除"], Token::Del),
        (vec!["global", "全局的"], Token::Global),
        (vec!["nonlocal", "非局部"], Token::Nonlocal),
        (vec!["lambda", "拉姆达"], Token::Lambda),
        (vec!["yield", "产出"], Token::Yield),
        (vec!["await", "等待"], Token::Await),
        (vec!["async", "异步的"], Token::Async),
        (vec!["with", "带上"], Token::With),
        (vec!["match", "匹配"], Token::Match),
        (vec!["case", "情况"], Token::Case),
        (vec!["**", "取幂"], Token::Pow),
        (vec!["//", "地板除"], Token::FloorDiv),
        (vec!["%", "取余", "取模"], Token::Mod),
        (vec!["=", "赋值为"], Token::Equal),
        (vec!["+", "加"], Token::Plus),
        (vec!["-", "减"], Token::Minus),
        (vec!["*", "乘"], Token::Star),
        (vec!["/", "除以"], Token::Slash),
        (vec!["&", "按位与"], Token::BitwiseAnd),
        (vec!["|", "按位或"], Token::BitwiseOr),
        (vec!["^", "按位异或"], Token::BitwiseXor),
        (vec!["~", "按位取反"], Token::BitwiseNot),
        (vec!["<<", "左移"], Token::LeftShift),
        (vec![">>", "右移"], Token::RightShift),
        (vec!["."], Token::Dot),
        (vec!["(", "（"], Token::LParen),
        (vec![")", "）"], Token::RParen),
        (vec![":", "："], Token::Colon),
        (vec![",", "，"], Token::Comma),
        (vec!["==", "等于"], Token::DoubleEqual),
        (vec!["!=", "！=", "不等于"], Token::NotEqual),
        (vec!["<", "《", "小于"], Token::Less),
        (vec!["<=", "《=", "小于等于"], Token::LessEqual),
        (vec![">", "》", "大于"], Token::Greater),
        (vec![">=", "》=", "大于等于"], Token::GreaterEqual),
        (vec!["[", "【"], Token::LBracket),
        (vec!["]", "】"], Token::RBracket),
        (vec!["{"], Token::LBrace),
        (vec!["}"], Token::RBrace)
    ];
    for (spellings, token) in table {
        for sp in spellings {
            let line = format!("{}\n", sp);
            assert_eq!(lex(&line), vec![(token.clone(), sp.to_string()), (Token::Newline, "\n".to_string())], "{}", sp);
        }
    }
}

#[test]
fn every_builtin_spelling_carries_its_english_name() {
    let table: Vec<(&str, &str)> = vec![
        ("打印", "print"),
        ("范围", "range"),
        ("整数", "int"),
        ("小数", "float"),
        ("字符串", "str"),
        ("输入", "input"),
        ("长度", "len"),
        ("列表", "list"),
        ("字典", "dict"),
        ("集合", "set"),
        ("元组", "tuple"),
        ("索引迭代", "enumerate"),
        ("解析", "eval"),
        ("求和", "sum"),
        ("最小值", "min"),
        ("最大值", "max"),
        ("绝对值", "abs"),
        ("全部为真", "all"),
        ("有一个为真", "any"),
        ("映射", "map"),
        ("过滤", "filter"),
        ("拉链", "zip"),
        ("打开", "open"),
        ("执行", "exec"),
        ("类型", "type"),
        ("实例判断", "isinstance"),
        ("子类判断", "issubclass"),
        ("目录", "dir"),
        ("变量", "vars"),
        ("本地变量", "locals"),
        ("全局变量", "globals"),
        ("帮助", "help"),
        ("编号", "id"),
        ("排序", "sorted"),
        ("父类", "super"),
        ("对象", "object"),
        ("类方法", "classmethod"),
        ("静态方法", "staticmethod"),
        ("属性", "property"),
        ("异常", "Exception"),
        ("魔法初始化", "__init__"),
        ("魔法新建", "__new__"),
        ("魔法销毁", "__del__"),
        ("魔法字符串表示", "__str__"),
        ("魔法表达式", "__repr__"),
        ("魔法字节表示", "__bytes__"),
        ("魔法格式化", "__format__"),
        ("魔法等于", "__eq__"),
        ("魔法不等于", "__ne__"),
        ("魔法小于", "__lt__"),
        ("魔法小于等于", "__le__"),
        ("魔法大于", "__gt__"),
        ("魔法大于等于", "__ge__"),
        ("魔法哈希", "__hash__"),
        ("魔法布尔", "__bool__"),
        ("魔法属性获取", "__getattr__"),
        ("魔法属性设置", "__setattr__"),
        ("魔法属性删除", "__delattr__"),
        ("魔法属性获取项", "__getitem__"),
        ("魔法属性设置项", "__setitem__"),
        ("魔法属性删除项", "__delitem__"),
        ("魔法长度", "__len__"),
        ("魔法可迭代", "__iter__"),
        ("魔法迭代下一个", "__next__"),
        ("魔法反转", "__reversed__"),
        ("魔法包含", "__contains__"),
        ("魔法加", "__add__"),
        ("魔法减", "__sub__"),
        ("魔法乘", "__mul__"),
        ("魔法除", "__truediv__"),
        ("魔法地板除", "__floordiv__"),
        ("魔法取余", "__mod__"),
        ("魔法取幂", "__pow__"),
        ("魔法左移", "__lshift__"),
        ("魔法右移", "__rshift__"),
        ("魔法按位与", "__and__"),
        ("魔法按位或", "__or__"),
        ("魔法按位异或", "__xor__"),
        ("魔法取反", "__invert__"),
        ("魔法可调用", "__call__"),
        ("魔法进入", "__enter__"),
        ("魔法退出", "__exit__"),
        ("魔法拷贝", "__copy__"),
        ("魔法深拷贝", "__deepcopy__")
    ];
    for (zh, en) in table {
        for sp in [zh, en] {
            let line = format!("{}\n", sp);
            assert_eq!(
                lex(&line),
                vec![(Token::BuiltInFunc(en.to_string()), sp.to_string()), (Token::Newline, "\n".to_string())]
            );
        }
    }
}

#[test]
fn full_width_punctuation_gives_the_same_tokens() {
    let ascii = kinds("f(a, b[0]): x\n");
    let wide = kinds("f（a， b【0】）： x\n");
    assert_eq!(ascii, wide);
}

#[test]
fn a_leading_tab_counts_as_eight_spaces() {
    assert_eq!(lex("如果 甲：\n\t过"), lex("如果 甲：\n        过"));
    assert_eq!(lex("如果 甲：\n  \t过\n下一个"), lex("如果 甲：\n          过\n下一个"));
    assert_eq!(lex("\t甲 = 1\r\n"), lex("        甲 = 1\r\n"));
}

#[test]
fn a_plain_name_alone_is_one_identifier() {
    assert_eq!(
        lex("甲乙"),
        vec![(Token::Identifier, "甲乙".to_string()), (Token::Newline, "\n".to_string())]
    );
    assert_eq!(
        lex("魔法初始化"),
        vec![(Token::BuiltInFunc("__init__".to_string()), "魔法初始化".to_string()), (Token::Newline, "\n".to_string())]
    );
}
