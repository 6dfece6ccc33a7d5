use pycn::chinese_to_digits::chinese_to_digits;
use pycn::parse_pycn;
use pycn::try_parse_pycn;

const LAMBDA_PROGRAM: &str = "# 匿名函数\n平方 = 拉姆达 x: x ** 2\n打印(平方(3))\n相加 = 拉姆达 a, b: a + b\n打印(相加(1, 2))\n";

#[test]
fn parser() {
    let out = parse_pycn(LAMBDA_PROGRAM);
    assert_eq!(
        out,
        "平方 = lambda x: x ** 2\nprint(平方(3))\n相加 = lambda a, b: a + b\nprint(相加(1, 2))"
    );
}

#[test]
fn cn_to_digits() {
    let chinese_num: String = "零点一".to_string();
    let result = chinese_to_digits(chinese_num);
    println!("{}", result);
    assert_eq!(result, "0.1");
}

#[test]
fn hello_world_from_the_docs() {
    let out = parse_pycn("# print(\"Hello, world!\")\n打印（\"你好，世界！\"）\n");
    assert_eq!(out, "print(\"你好，世界！\")");
}

#[test]
fn chinese_and_english_keywords_translate_alike() {
    let cn = parse_pycn("定义 加一（数）：\n    返回 数 + 1\n");
    let en = parse_pycn("def 加一(数):\n    return 数 + 1\n");
    assert_eq!(cn, "def 加一(数):\n    return 数 + 1");
    assert_eq!(cn, en);
}

#[test]
fn if_elif_else_chain() {
    let code = "如果 x 《 1：\n    打印（1）\n要不然 x 》 2：\n    打印（2）\n否则：\n    过\n";
    assert_eq!(
        parse_pycn(code),
        "if x < 1:\n    print(1)\nelif x > 2:\n    print(2)\nelse:\n    pass"
    );
}

#[test]
fn chinese_numerals_become_digits() {
    assert_eq!(parse_pycn("x = 三\n"), "x = 3");
}

#[test]
fn try_parse_agrees_with_parse() {
    assert_eq!(try_parse_pycn("y = 1 + 2\n"), Some("y = 1 + 2".to_string()));
}

#[test]
fn subscript_assignment() {
    assert_eq!(parse_pycn("甲【0】 = 1\n"), "甲[0] = 1");
    assert_eq!(parse_pycn("如果 真：\n    a[i + 1] = b\n"), "if True:\n    a[i + 1] = b");
}

#[test]
fn assignment_to_a_call_makes_no_progress() {
    assert_eq!(try_parse_pycn("f(x) = 1\n"), None);
}

#[test]
fn chinese_single_quotes_become_ascii() {
    assert_eq!(parse_pycn("打印（‘你好’）\n"), "print('你好')");
}

#[test]
fn classes_and_instances() {
    let code = "类 点类：\n    定义 魔法初始化（self，x）：\n        self.x = x\np = 点类（1）\n";
    assert_eq!(
        parse_pycn(code),
        "class 点类:\n    def __init__(self, x):\n        self.x = x\np = 点类(1)"
    );
}

#[test]
fn swapping_variables() {
    assert_eq!(parse_pycn("甲，乙 赋值为 乙，甲\n"), "甲, 乙 = 乙, 甲");
}

#[test]
fn for_over_enumerate() {
    let code = "迭代 索引值，水果 在 索引迭代（水果们）：\n    打印（水果）\n";
    assert_eq!(parse_pycn(code), "for 索引值, 水果 in enumerate(水果们):\n    print(水果)");
}

#[test]
fn slices_dicts_and_bit_operations() {
    assert_eq!(parse_pycn("打印（列表1【1：3】）\n"), "print(列表1[1:3])");
    assert_eq!(parse_pycn("字典1 = {“a”: 1, “b”: 2}\n"), "字典1 = {\"a\": 1, \"b\": 2}");
    assert_eq!(parse_pycn("x = 1 按位与 2 左移 1\n"), "x = 1 & 2 << 1");
}

#[test]
fn chinese_decimal_numeral() {
    assert_eq!(parse_pycn("x = 三点五\n"), "x = 3.5");
}

#[test]
fn print_with_format_operator() {
    assert_eq!(parse_pycn("打印（“%d” % 3）\n"), "print(\"%d\" % 3)");
}

#[test]
fn bare_return() {
    assert_eq!(parse_pycn("定义 f（）：\n    返回\n"), "def f():\n    return");
}

#[test]
fn numerals_out_of_range_give_no_translation() {
    assert_eq!(try_parse_pycn("x = 亿亿\n"), None);
    assert_eq!(try_parse_pycn("x = 三十亿\n"), None);
    assert_eq!(try_parse_pycn("x = 一万\n"), Some("x = 10000".to_string()));
}
