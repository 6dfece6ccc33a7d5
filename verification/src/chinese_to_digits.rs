//! Chinese numerals to digits, through the `chinese2digits` crate.
use vstd::prelude::*;
use crate::scan::is_cn_numeral;
use crate::text::chars_of;

verus! {

/// The `replaced_text` that `chinese2digits::take_number_from_string(s, true, true)` gives
/// for the text `s`.
pub uninterp spec fn chinese_digits_text(s: Seq<char>) -> Seq<char>;

/// The value of a counting unit (`十 百 千 万 亿` and `拾 佰 仟`); 1 for any other character.
pub open spec fn unit_value(c: char) -> int {
    if c == '十' || c == '拾' {
        10
    } else if c == '百' || c == '佰' {
        100
    } else if c == '千' || c == '仟' {
        1000
    } else if c == '万' {
        10000
    } else if c == '亿' {
        100000000
    } else {
        1
    }
}

/// A numeral digit: `零` to `九`, or `壹` to `玖`.
pub open spec fn is_numeral_digit(c: char) -> bool {
    c == '零' || c == '一' || c == '二' || c == '三' || c == '四' || c == '五' || c == '六' || c == '七'
        || c == '八' || c == '九' || c == '壹' || c == '贰' || c == '叁' || c == '肆' || c == '伍'
        || c == '陆' || c == '柒' || c == '捌' || c == '玖'
}

/// The value of a numeral digit (0 for any other character).
pub open spec fn digit_value(c: char) -> int {
    if c == '一' || c == '壹' {
        1
    } else if c == '二' || c == '贰' {
        2
    } else if c == '三' || c == '叁' {
        3
    } else if c == '四' || c == '肆' {
        4
    } else if c == '五' || c == '伍' {
        5
    } else if c == '六' || c == '陆' {
        6
    } else if c == '七' || c == '柒' {
        7
    } else if c == '八' || c == '捌' {
        8
    } else if c == '九' || c == '玖' {
        9
    } else {
        0
    }
}

/// The largest unit value in `s` (1 when there is none).
pub open spec fn max_unit(s: Seq<char>) -> int
    decreases s.len(),
{
    if s.len() == 0 {
        1
    } else {
        let m = max_unit(s.drop_last());
        if unit_value(s.last()) > m {
            unit_value(s.last())
        } else {
            m
        }
    }
}

/// The bound below which every value the crate computes must stay: it computes in `i32`.
pub open spec fn i32_bound() -> int {
    2147483648
}

/// Whether the crate's conversion stays in range on a piece of `s` that ends just before
/// position `i`, read from right to left as the crate reads it, from the state `cu` (the
/// current counting unit), `mx` (the largest unit met), `tot` (a bound on the running
/// total), `v` (the digits joined so far) and `p` (the place value of the next digit).
///
/// At a digit, the joined digits may be parsed and multiplied by the counting unit and
/// added to the total (this is checked at every digit, since a piece may start there); at
/// most nine digits are joined. At a unit `u`, the counting unit becomes `u` if `u` is
/// larger, else the largest unit times `u`; a unit that starts a piece is added to the
/// total; a `十` with no digit before it may get a `一` put before it, which adds the counting
/// unit to the total. Reading stops at a `点`, where a piece ends.
pub open spec fn walk(s: Seq<char>, i: int, cu: int, mx: int, tot: int, v: int, p: int) -> bool
    decreases i,
{
    if i <= 0 || i > s.len() {
        true
    } else {
        let c = s[i - 1];
        if is_numeral_digit(c) {
            let v2 = digit_value(c) * p + v;
            &&& p <= 100000000
            &&& tot + cu * v2 < i32_bound()
            &&& if i >= 2 && is_numeral_digit(s[i - 2]) {
                walk(s, i - 1, cu, mx, tot, v2, 10 * p)
            } else if i >= 2 && unit_value(s[i - 2]) > 1 {
                walk(s, i - 1, cu, mx, tot + cu * v2, 0, 1)
            } else {
                true
            }
        } else if unit_value(c) > 1 {
            let u = unit_value(c);
            let mx2 = if u > mx {
                u
            } else {
                mx
            };
            let cu2 = if u > cu {
                u
            } else {
                mx2 * u
            };
            let lone = u == 10 && !(i >= 2 && is_numeral_digit(s[i - 2]));
            let tot2 = if lone {
                tot + cu2
            } else {
                tot
            };
            &&& (if u > cu {
                tot + u < i32_bound()
            } else {
                mx2 * u < i32_bound()
            })
            &&& tot2 < i32_bound()
            &&& walk(s, i - 1, cu2, mx2, tot2, 0, 1)
        } else {
            true
        }
    }
}

/// The counting unit after the units that the crate appends to a numeral whose second-last
/// character is the unit `u` (`十` after `百`, `百` after `千`, `千` after `万`, `千万` after `亿`).
pub open spec fn appended_unit(u: int) -> int {
    if u == 100 {
        10
    } else if u == 1000 {
        100
    } else if u == 10000 {
        1000
    } else {
        10000000
    }
}

/// The largest of the units that the crate appends after the unit `u`.
pub open spec fn appended_max(u: int) -> int {
    if u == 100 {
        10
    } else if u == 1000 {
        100
    } else if u == 10000 {
        1000
    } else {
        10000
    }
}

/// Whether every piece of `s` that ends at position `b` converts in range, with or without
/// the units that the crate may append there.
pub open spec fn ends_ok(s: Seq<char>, b: int) -> bool {
    &&& walk(s, b, 1, 1, 0, 0, 1)
    &&& (b >= 2 && unit_value(s[b - 2]) >= 100 ==> walk(
        s,
        b,
        appended_unit(unit_value(s[b - 2])),
        appended_max(unit_value(s[b - 2])),
        0,
        0,
        1,
    ))
}

/// A run of Chinese numerals on which the crate's arithmetic stays in range, so that it
/// converts the run without failing.
///
/// The crate splits the run into pieces (at `点`, and where a character is not part of its
/// pattern), may put a `一` before a `十` and append units to a piece, and converts each piece
/// from right to left in `i32`, joining digits and parsing them, multiplying counting units
/// and adding to a total. `walk` follows that arithmetic with an upper bound on the total,
/// from every place where a piece may end, and asks every value to stay in range. A run
/// without any unit is only ever joined as text, never computed with.
pub open spec fn convertible(s: Seq<char>) -> bool {
    &&& forall|i: int| 0 <= i < s.len() ==> is_cn_numeral(#[trigger] s[i])
    &&& (max_unit(s) == 1 || forall|b: int| 1 <= b <= s.len() ==> #[trigger] ends_ok(s, b))
}

proof fn lemma_max_unit_bounds(s: Seq<char>)
    ensures
        1 <= max_unit(s) <= 100000000,
    decreases s.len(),
{
    if s.len() > 0 {
        lemma_max_unit_bounds(s.drop_last());
    }
}

fn unit_value_exec(c: char) -> (u: u128)
    ensures
        u == unit_value(c),
{
    if c == '十' || c == '拾' {
        10
    } else if c == '百' || c == '佰' {
        100
    } else if c == '千' || c == '仟' {
        1000
    } else if c == '万' {
        10000
    } else if c == '亿' {
        100000000
    } else {
        1
    }
}

fn is_numeral_digit_exec(c: char) -> (b: bool)
    ensures
        b == is_numeral_digit(c),
{
    c == '零' || c == '一' || c == '二' || c == '三' || c == '四' || c == '五' || c == '六' || c == '七'
        || c == '八' || c == '九' || c == '壹' || c == '贰' || c == '叁' || c == '肆' || c == '伍'
        || c == '陆' || c == '柒' || c == '捌' || c == '玖'
}

fn digit_value_exec(c: char) -> (d: u128)
    ensures
        d == digit_value(c),
{
    if c == '一' || c == '壹' {
        1
    } else if c == '二' || c == '贰' {
        2
    } else if c == '三' || c == '叁' {
        3
    } else if c == '四' || c == '肆' {
        4
    } else if c == '五' || c == '伍' {
        5
    } else if c == '六' || c == '陆' {
        6
    } else if c == '七' || c == '柒' {
        7
    } else if c == '八' || c == '捌' {
        8
    } else if c == '九' || c == '玖' {
        9
    } else {
        0
    }
}

fn is_cn_numeral_char(c: char) -> (b: bool)
    ensures
        b == is_cn_numeral(c),
{
    c == '点' || c == '零' || c == '一' || c == '二' || c == '三' || c == '四' || c == '五' || c == '六'
        || c == '七' || c == '八' || c == '九' || c == '十' || c == '百' || c == '千' || c == '万'
        || c == '亿' || c == '壹' || c == '贰' || c == '叁' || c == '肆' || c == '伍' || c == '陆'
        || c == '柒' || c == '捌' || c == '玖' || c == '拾' || c == '佰' || c == '仟'
}

/// `walk` from position `b` and the given counting unit and largest unit.
fn walk_exec(s: &Vec<char>, b: usize, cu0: u128, mx0: u128) -> (ok: bool)
    requires
        b <= s@.len(),
        1 <= cu0 <= 10000000,
        1 <= mx0 <= 100000000,
    ensures
        ok == walk(s@, b as int, cu0 as int, mx0 as int, 0, 0, 1),
{
    let mut i: usize = b;
    let mut cu: u128 = cu0;
    let mut mx: u128 = mx0;
    let mut tot: u128 = 0;
    let mut val: u128 = 0;
    let mut p: u128 = 1;
    while i > 0
        invariant
            i <= b <= s@.len(),
            1 <= cu < 2147483648,
            1 <= mx <= 100000000,
            tot < 2147483648,
            val < 2147483648,
            1 <= p <= 1000000000,
            walk(s@, b as int, cu0 as int, mx0 as int, 0, 0, 1) == walk(
                s@,
                i as int,
                cu as int,
                mx as int,
                tot as int,
                val as int,
                p as int,
            ),
        decreases i,
    {
        let c = s[i - 1];
        if is_numeral_digit_exec(c) {
            if p > 100000000 {
                return false;
            }
            let d = digit_value_exec(c);
            let v2: u128 = d * p + val;
            assert(cu * v2 <= 2147483648 * 4000000000) by (nonlinear_arith)
                requires
                    cu < 2147483648,
                    v2 < 4000000000,
            ;
            if tot + cu * v2 >= 2147483648 {
                return false;
            }
            assert(v2 <= cu * v2) by (nonlinear_arith)
                requires
                    1 <= cu,
            ;
            if i >= 2 && is_numeral_digit_exec(s[i - 2]) {
                val = v2;
                p = p * 10;
            } else if i >= 2 && unit_value_exec(s[i - 2]) > 1 {
                tot = tot + cu * v2;
                val = 0;
                p = 1;
            } else {
                return true;
            }
        } else {
            let u = unit_value_exec(c);
            if u <= 1 {
                return true;
            }
            let mx2: u128 = if u > mx {
                u
            } else {
                mx
            };
            let cu2: u128;
            if u > cu {
                if tot + u >= 2147483648 {
                    return false;
                }
                cu2 = u;
            } else {
                assert(mx2 * u <= 100000000 * 100000000) by (nonlinear_arith)
                    requires
                        mx2 <= 100000000,
                        u <= 100000000,
                ;
                if mx2 * u >= 2147483648 {
                    return false;
                }
                assert(10 <= mx2 * u) by (nonlinear_arith)
                    requires
                        1 <= mx2,
                        10 <= u,
                ;
                cu2 = mx2 * u;
            }
            let lone = u == 10 && !(i >= 2 && is_numeral_digit_exec(s[i - 2]));
            let tot2: u128 = if lone {
                tot + cu2
            } else {
                tot
            };
            if tot2 >= 2147483648 {
                return false;
            }
            cu = cu2;
            mx = mx2;
            tot = tot2;
            val = 0;
            p = 1;
        }
        i -= 1;
    }
    true
}

/// Whether the crate converts the run `s` without failing (see `convertible`).
pub fn is_convertible(s: &String) -> (b: bool)
    ensures
        b == convertible(s@),
{
    let v = chars_of(s.as_str());
    let mut all_numerals = true;
    let mut u: u128 = 1;
    let mut i: usize = 0;
    while i < v.len()
        invariant
            i <= v@.len(),
            v@ == s@,
            all_numerals == (forall|j: int| 0 <= j < i ==> is_cn_numeral(#[trigger] v@[j])),
            u == max_unit(v@.take(i as int)),
        decreases v@.len() - i,
    {
        let c = v[i];
        let ghost t = v@.take(i + 1);
        assert(t.drop_last() =~= v@.take(i as int));
        assert(t.last() == c);
        if !is_cn_numeral_char(c) {
            all_numerals = false;
        }
        let uc = unit_value_exec(c);
        if uc > u {
            u = uc;
        }
        i += 1;
    }
    assert(v@.take(v@.len() as int) =~= v@);
    if !all_numerals {
        return false;
    }
    if u == 1 {
        return true;
    }
    let mut k: usize = 0;
    while k < v.len()
        invariant
            k <= v@.len(),
            v@ == s@,
            all_numerals,
            forall|j: int| 0 <= j < v@.len() ==> is_cn_numeral(#[trigger] v@[j]),
            max_unit(v@) != 1,
            forall|e: int| 1 <= e <= k ==> #[trigger] ends_ok(v@, e),
        decreases v@.len() - k,
    {
        let b = k + 1;
        if !walk_exec(&v, b, 1, 1) {
            assert(!ends_ok(v@, b as int));
            return false;
        }
        if b >= 2 {
            let w = unit_value_exec(v[b - 2]);
            if w >= 100 {
                let (c0, m0): (u128, u128) = if w == 100 {
                    (10, 10)
                } else if w == 1000 {
                    (100, 100)
                } else if w == 10000 {
                    (1000, 1000)
                } else {
                    (10000000, 10000)
                };
                if !walk_exec(&v, b, c0, m0) {
                    assert(!ends_ok(v@, b as int));
                    return false;
                }
            }
        }
        assert(ends_ok(v@, b as int));
        k = b;
    }
    true
}

/// Converts the Chinese numerals in `chinese_num` to digits: the `replaced_text` of
/// `chinese2digits::take_number_from_string` with percent and traditional conversion on.
///
/// Trusted: the contract claims that the result is a function of the input text, which the
/// crate computes from its argument alone; what that text is takes the crate's rule tables
/// to state and is left unsaid. The input must be a run of Chinese numerals that
/// `convertible` admits, which keeps every `i32` value the crate computes in range and every
/// digit string it parses short; beyond that its arithmetic may overflow or a parse fail,
/// and it panics.
#[verifier::external_body]
pub fn chinese_to_digits(chinese_num: String) -> (r: String)
    requires
        convertible(chinese_num@),
    ensures
        r@ == chinese_digits_text(chinese_num@),
{
    chinese2digits::take_number_from_string(&chinese_num, true, true).replaced_text
}

} // verus!
