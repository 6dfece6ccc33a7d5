//! Small text utilities over `Seq<char>`, with their executable forms.
use vstd::prelude::*;

verus! {

/// Appends one character to a string with `String::push`. Trusted: the contract claims
/// what the standard library documents, that the character is added at the end.
#[verifier::external_body]
pub(crate) fn push_char(s: &mut String, c: char)
    ensures
        final(s)@ == old(s)@.push(c),
{
    s.push(c);
}

/// The characters of a string slice, in order.
pub fn chars_of(s: &str) -> (v: Vec<char>)
    ensures
        v@ == s@,
{
    let mut v: Vec<char> = Vec::new();
    for c in it: s.chars()
        invariant
            v@ == it.seq().take(it.index() as int),
            it.seq() == s@,
    {
        v.push(c);
    }
    v
}

/// A string holding the characters `v[lo..hi]`.
pub fn string_of_range(v: &Vec<char>, lo: usize, hi: usize) -> (s: String)
    requires
        lo <= hi <= v@.len(),
    ensures
        s@ == v@.subrange(lo as int, hi as int),
{
    let mut s = String::new();
    let mut i = lo;
    while i < hi
        invariant
            lo <= i <= hi <= v@.len(),
            s@ == v@.subrange(lo as int, i as int),
        decreases hi - i,
    {
        push_char(&mut s, v[i]);
        assert(v@.subrange(lo as int, i + 1) =~= v@.subrange(lo as int, i as int).push(v@[i as int]));
        i += 1;
    }
    s
}

/// A vector holding `v[lo..hi]`.
pub fn sub_vec(v: &Vec<char>, lo: usize, hi: usize) -> (r: Vec<char>)
    requires
        lo <= hi <= v@.len(),
    ensures
        r@ == v@.subrange(lo as int, hi as int),
{
    let mut r: Vec<char> = Vec::new();
    let mut i = lo;
    while i < hi
        invariant
            lo <= i <= hi <= v@.len(),
            r@ == v@.subrange(lo as int, i as int),
        decreases hi - i,
    {
        r.push(v[i]);
        assert(v@.subrange(lo as int, i + 1) =~= v@.subrange(lo as int, i as int).push(v@[i as int]));
        i += 1;
    }
    r
}

/// The texts of a sequence of character vectors.
pub open spec fn seqs_view(r: Seq<Vec<char>>) -> Seq<Seq<char>> {
    r.map_values(|x: Vec<char>| x@)
}

/// Whether two character vectors hold the same text.
pub fn same_chars(a: &Vec<char>, b: &Vec<char>) -> (r: bool)
    ensures
        r == (a@ == b@),
{
    if a.len() != b.len() {
        return false;
    }
    let mut i: usize = 0;
    while i < a.len()
        invariant
            a@.len() == b@.len(),
            i <= a@.len(),
            forall|k: int| 0 <= k < i ==> a@[k] == b@[k],
        decreases a@.len() - i,
    {
        if a[i] != b[i] {
            return false;
        }
        i += 1;
    }
    assert(a@ =~= b@);
    true
}

/// A string holding the characters of `v`.
pub fn string_of(v: &Vec<char>) -> (s: String)
    ensures
        s@ == v@,
{
    let mut s = String::new();
    let mut i: usize = 0;
    while i < v.len()
        invariant
            i <= v@.len(),
            s@ == v@.take(i as int),
        decreases v@.len() - i,
    {
        push_char(&mut s, v[i]);
        assert(v@.take(i + 1) =~= v@.take(i as int).push(v@[i as int]));
        i += 1;
    }
    assert(v@.take(v@.len() as int) =~= v@);
    s
}

/// Whether a string has the text of a literal.
pub fn is_text(s: &String, lit: &str) -> (b: bool)
    ensures
        b == (s@ == lit@),
{
    let t = lit.to_owned();
    *s == t
}

/// Whether a character is an ASCII decimal digit.
pub open spec fn is_digit(c: char) -> bool {
    '0' <= c <= '9'
}

/// Whether every character is an ASCII decimal digit.
pub open spec fn all_digits(s: Seq<char>) -> bool {
    forall|i: int| 0 <= i < s.len() ==> is_digit(#[trigger] s[i])
}

/// The value of a decimal digit.
pub open spec fn digit_value(c: char) -> int {
    c as int - '0' as int
}

/// The number that a run of decimal digits denotes.
pub open spec fn digits_value(s: Seq<char>) -> int
    decreases s.len(),
{
    if s.len() == 0 {
        0
    } else {
        digits_value(s.drop_last()) * 10 + digit_value(s.last())
    }
}

/// What `str::parse::<i64>` gives: an optional sign, then at least one digit, in range.
pub open spec fn i64_of_text(s: Seq<char>) -> Option<i64> {
    let neg = s.len() > 0 && s[0] == '-';
    let d = if s.len() > 0 && (s[0] == '-' || s[0] == '+') {
        s.skip(1)
    } else {
        s
    };
    if d.len() > 0 && all_digits(d) {
        let v = if neg {
            -digits_value(d)
        } else {
            digits_value(d)
        };
        if i64::MIN <= v <= i64::MAX {
            Some(v as i64)
        } else {
            None
        }
    } else {
        None
    }
}

proof fn lemma_digits_value_nonneg(s: Seq<char>)
    requires
        all_digits(s),
    ensures
        digits_value(s) >= 0,
    decreases s.len(),
{
    if s.len() > 0 {
        assert(is_digit(s[s.len() - 1]));
        lemma_digits_value_nonneg(s.drop_last());
    }
}

proof fn lemma_digits_value_push(s: Seq<char>, c: char)
    ensures
        digits_value(s.push(c)) == digits_value(s) * 10 + digit_value(c),
{
    assert(s.push(c).drop_last() =~= s);
}

/// `str::parse::<i64>` on a character sequence.
pub fn parse_i64(s: &Vec<char>) -> (r: Option<i64>)
    ensures
        r == i64_of_text(s@),
{
    let n = s.len();
    let neg = n > 0 && s[0] == '-';
    let start: usize = if n > 0 && (s[0] == '-' || s[0] == '+') {
        1
    } else {
        0
    };
    let ghost d = s@.subrange(start as int, n as int);
    assert(d =~= if n > 0 && (s@[0] == '-' || s@[0] == '+') { s@.skip(1) } else { s@ });
    if start >= n {
        return None;
    }
    let mut acc: u128 = 0;
    let mut big = false;
    let mut i = start;
    while i < n
        invariant
            start <= i <= n == s@.len(),
            d == s@.subrange(start as int, n as int),
            d == (if n > 0 && (s@[0] == '-' || s@[0] == '+') { s@.skip(1) } else { s@ }),
            neg == (n > 0 && s@[0] == '-'),
            all_digits(s@.subrange(start as int, i as int)),
            !big ==> acc == digits_value(s@.subrange(start as int, i as int)),
            !big ==> acc <= 0x8000_0000_0000_0000,
            big ==> digits_value(s@.subrange(start as int, i as int)) > 0x8000_0000_0000_0000,
        decreases n - i,
    {
        let c = s[i];
        if !('0' <= c && c <= '9') {
            assert(d[i - start] == c);
            assert(!is_digit(d[i - start]));
            return None;
        }
        let ghost pre = s@.subrange(start as int, i as int);
        assert(s@.subrange(start as int, i + 1) =~= pre.push(c));
        proof {
            lemma_digits_value_push(pre, c);
            lemma_digits_value_nonneg(pre);
        }
        if !big {
            acc = acc * 10 + (c as u32 - '0' as u32) as u128;
            if acc > 0x8000_0000_0000_0000 {
                big = true;
            }
        }
        i += 1;
    }
    assert(s@.subrange(start as int, n as int) == d);
    if big {
        return None;
    }
    if neg {
        if acc == 0x8000_0000_0000_0000 {
            Some(i64::MIN)
        } else {
            Some(-(acc as i64))
        }
    } else {
        if acc <= 0x7fff_ffff_ffff_ffff {
            Some(acc as i64)
        } else {
            None
        }
    }
}

/// The decimal digit `d` (for `0 <= d < 10`).
pub open spec fn digit_char(d: int) -> char {
    if d == 0 { '0' }
    else if d == 1 { '1' }
    else if d == 2 { '2' }
    else if d == 3 { '3' }
    else if d == 4 { '4' }
    else if d == 5 { '5' }
    else if d == 6 { '6' }
    else if d == 7 { '7' }
    else if d == 8 { '8' }
    else { '9' }
}

/// The decimal text of a natural number, without leading zeros.
pub open spec fn nat_text(n: nat) -> Seq<char>
    decreases n,
{
    if n < 10 {
        seq![digit_char(n as int)]
    } else {
        nat_text(n / 10).push(digit_char((n % 10) as int))
    }
}

/// The decimal text that `i64::to_string` gives.
pub open spec fn i64_text(n: i64) -> Seq<char> {
    if n < 0 {
        seq!['-'] + nat_text((-n) as nat)
    } else {
        nat_text(n as nat)
    }
}

fn digit_char_exec(d: u128) -> (c: char)
    requires
        d < 10,
    ensures
        c == digit_char(d as int),
{
    if d == 0 { '0' }
    else if d == 1 { '1' }
    else if d == 2 { '2' }
    else if d == 3 { '3' }
    else if d == 4 { '4' }
    else if d == 5 { '5' }
    else if d == 6 { '6' }
    else if d == 7 { '7' }
    else if d == 8 { '8' }
    else { '9' }
}

/// Appends the decimal text of a natural number.
pub fn push_nat_text(s: &mut String, n: u128)
    ensures
        final(s)@ == old(s)@ + nat_text(n as nat),
    decreases n,
{
    if n >= 10 {
        push_nat_text(s, n / 10);
    }
    push_char(s, digit_char_exec(n % 10));
    assert(final(s)@ =~= old(s)@ + nat_text(n as nat));
}

/// Appends the decimal text of an `i64`.
pub fn push_i64_text(s: &mut String, n: i64)
    ensures
        final(s)@ == old(s)@ + i64_text(n),
{
    if n < 0 {
        push_char(s, '-');
        let m: i128 = -(n as i128);
        push_nat_text(s, m as u128);
        assert(final(s)@ =~= old(s)@ + i64_text(n));
    } else {
        push_nat_text(s, n as u128);
    }
}


/// The index of the first `c` in `s`, or `s.len()` when there is none.
pub open spec fn index_of(s: Seq<char>, c: char) -> int
    decreases s.len(),
{
    if s.len() == 0 {
        0
    } else if s[0] == c {
        0
    } else {
        1 + index_of(s.skip(1), c)
    }
}

/// A digit run without its leading zeros.
pub open spec fn strip_leading_zeros(s: Seq<char>) -> Seq<char>
    decreases s.len(),
{
    if s.len() > 0 && s[0] == '0' {
        strip_leading_zeros(s.skip(1))
    } else {
        s
    }
}

/// A digit run without its trailing zeros.
pub open spec fn strip_trailing_zeros(s: Seq<char>) -> Seq<char>
    decreases s.len(),
{
    if s.len() > 0 && s.last() == '0' {
        strip_trailing_zeros(s.drop_last())
    } else {
        s
    }
}

/// The text of a decimal literal `[+-] digits [. digits]` (at least one digit) in normal
/// form: sign `-` kept, `+` dropped, integer part without leading zeros (at least `0`),
/// fraction without trailing zeros, and no `.` when the fraction is empty. `None` for
/// any other text.
#[verifier::opaque]
pub open spec fn decimal_text(s: Seq<char>) -> Option<Seq<char>> {
    let neg = s.len() > 0 && s[0] == '-';
    let body = if s.len() > 0 && (s[0] == '-' || s[0] == '+') {
        s.skip(1)
    } else {
        s
    };
    let k = index_of(body, '.');
    let ip = body.take(k);
    let fp = if k < body.len() {
        body.skip(k + 1)
    } else {
        Seq::<char>::empty()
    };
    if all_digits(ip) && all_digits(fp) && ip.len() + fp.len() > 0 {
        let i2 = strip_leading_zeros(ip);
        let f2 = strip_trailing_zeros(fp);
        Some(
            (if neg { seq!['-'] } else { Seq::<char>::empty() }) + (if i2.len() == 0 {
                seq!['0']
            } else {
                i2
            }) + (if f2.len() == 0 {
                Seq::<char>::empty()
            } else {
                seq!['.'] + f2
            }),
        )
    } else {
        None
    }
}

/// `index_of` finds the first occurrence, or gives the length when there is none.
pub proof fn lemma_index_of_bounds(s: Seq<char>, c: char)
    ensures
        0 <= index_of(s, c) <= s.len(),
        index_of(s, c) < s.len() ==> s[index_of(s, c)] == c,
        forall|j: int| 0 <= j < index_of(s, c) ==> s[j] != c,
    decreases s.len(),
{
    if s.len() > 0 && s[0] != c {
        lemma_index_of_bounds(s.skip(1), c);
        assert forall|j: int| 0 <= j < index_of(s, c) implies s[j] != c by {
            if j > 0 {
                assert(s[j] == s.skip(1)[j - 1]);
            }
        }
    }
}

/// The position of the first `c` at or after `lo`, or the length.
pub fn find_char(v: &Vec<char>, lo: usize, c: char) -> (k: usize)
    requires
        lo <= v@.len(),
    ensures
        k == lo + index_of(v@.subrange(lo as int, v@.len() as int), c),
    decreases v@.len() - lo,
{
    let ghost s = v@.subrange(lo as int, v@.len() as int);
    if lo == v.len() {
        lo
    } else if v[lo] == c {
        lo
    } else {
        assert(s.skip(1) =~= v@.subrange(lo + 1, v@.len() as int));
        find_char(v, lo + 1, c)
    }
}

fn skip_leading_zeros(v: &Vec<char>, lo: usize, hi: usize) -> (j: usize)
    requires
        lo <= hi <= v@.len(),
    ensures
        lo <= j <= hi,
        strip_leading_zeros(v@.subrange(lo as int, hi as int)) == v@.subrange(j as int, hi as int),
    decreases hi - lo,
{
    if lo < hi && v[lo] == '0' {
        assert(v@.subrange(lo as int, hi as int).skip(1) =~= v@.subrange(lo + 1, hi as int));
        skip_leading_zeros(v, lo + 1, hi)
    } else {
        lo
    }
}

fn skip_trailing_zeros(v: &Vec<char>, lo: usize, hi: usize) -> (j: usize)
    requires
        lo <= hi <= v@.len(),
    ensures
        lo <= j <= hi,
        strip_trailing_zeros(v@.subrange(lo as int, hi as int)) == v@.subrange(lo as int, j as int),
    decreases hi - lo,
{
    if lo < hi && v[hi - 1] == '0' {
        assert(v@.subrange(lo as int, hi as int).drop_last() =~= v@.subrange(lo as int, hi - 1));
        skip_trailing_zeros(v, lo, hi - 1)
    } else {
        lo + (hi - lo)
    }
}

fn all_digits_in(v: &Vec<char>, lo: usize, hi: usize) -> (b: bool)
    requires
        lo <= hi <= v@.len(),
    ensures
        b == all_digits(v@.subrange(lo as int, hi as int)),
{
    let mut i = lo;
    while i < hi
        invariant
            lo <= i <= hi <= v@.len(),
            all_digits(v@.subrange(lo as int, i as int)),
        decreases hi - i,
    {
        if !('0' <= v[i] && v[i] <= '9') {
            assert(!is_digit(v@.subrange(lo as int, hi as int)[i - lo]));
            return false;
        }
        assert(v@.subrange(lo as int, i + 1) =~= v@.subrange(lo as int, i as int).push(v@[i as int]));
        i += 1;
    }
    true
}

/// `decimal_text` in terms of the positions of the sign, the point and the fraction.
proof fn lemma_decimal_text(s: Seq<char>, b: int, k: int, fs: int)
    requires
        b == (if s.len() > 0 && (s[0] == '-' || s[0] == '+') { 1int } else { 0int }),
        k == b + index_of(s.subrange(b, s.len() as int), '.'),
        fs == (if k < s.len() { k + 1 } else { s.len() as int }),
    ensures
        b <= k <= fs <= s.len(),
        decimal_text(s) == (if all_digits(s.subrange(b, k)) && all_digits(s.subrange(fs, s.len() as int))
            && (k - b) + (s.len() - fs) > 0 {
            let i2 = strip_leading_zeros(s.subrange(b, k));
            let f2 = strip_trailing_zeros(s.subrange(fs, s.len() as int));
            Some(
                (if s.len() > 0 && s[0] == '-' { seq!['-'] } else { Seq::<char>::empty() }) + (if i2.len() == 0 {
                    seq!['0']
                } else {
                    i2
                }) + (if f2.len() == 0 {
                    Seq::<char>::empty()
                } else {
                    seq!['.'] + f2
                }),
            )
        } else {
            None
        }),
{
    reveal(decimal_text);
    let body = s.subrange(b, s.len() as int);
    assert(body =~= if s.len() > 0 && (s[0] == '-' || s[0] == '+') { s.skip(1) } else { s });
    lemma_index_of_bounds(body, '.');
    assert(body.take(k - b) =~= s.subrange(b, k));
    let fp = if k - b < body.len() { body.skip(k - b + 1) } else { Seq::<char>::empty() };
    assert(fp =~= s.subrange(fs, s.len() as int));
}

/// The normal form of a decimal literal, or `None` when the text is not one.
#[verifier::rlimit(50)]
#[verifier::spinoff_prover]
pub fn normalize_decimal(v: &Vec<char>) -> (r: Option<String>)
    ensures
        match r {
            Some(t) => decimal_text(v@) == Some(t@),
            None => decimal_text(v@) is None,
        },
{
    let n = v.len();
    let neg = n > 0 && v[0] == '-';
    let b: usize = if n > 0 && (v[0] == '-' || v[0] == '+') {
        1
    } else {
        0
    };
    let k = find_char(v, b, '.');
    let fs: usize = if k < n {
        k + 1
    } else {
        n
    };
    proof {
        lemma_decimal_text(v@, b as int, k as int, fs as int);
    }
    if !(all_digits_in(v, b, k) && all_digits_in(v, fs, n) && (k - b) + (n - fs) > 0) {
        return None;
    }
    let i0 = skip_leading_zeros(v, b, k);
    let f1 = skip_trailing_zeros(v, fs, n);
    let ghost sgn = if neg { seq!['-'] } else { Seq::<char>::empty() };
    let ghost i2 = v@.subrange(i0 as int, k as int);
    let ghost f2 = v@.subrange(fs as int, f1 as int);
    let ghost ipart = if i2.len() == 0 { seq!['0'] } else { i2 };
    let ghost fpart = if f2.len() == 0 { Seq::<char>::empty() } else { seq!['.'] + f2 };
    assert(decimal_text(v@) == Some(sgn + ipart + fpart));
    let mut out = String::new();
    if neg {
        push_char(&mut out, '-');
    }
    assert(out@ =~= sgn);
    if i0 == k {
        push_char(&mut out, '0');
    } else {
        let mut i = i0;
        while i < k
            invariant
                i0 <= i <= k <= n == v@.len(),
                out@ == sgn + v@.subrange(i0 as int, i as int),
            decreases k - i,
        {
            push_char(&mut out, v[i]);
            assert(v@.subrange(i0 as int, i + 1) =~= v@.subrange(i0 as int, i as int).push(v@[i as int]));
            i += 1;
        }
    }
    assert(out@ =~= sgn + ipart);
    let ghost head = out@;
    if f1 > fs {
        push_char(&mut out, '.');
        let mut i = fs;
        while i < f1
            invariant
                fs <= i <= f1 <= n == v@.len(),
                out@ == head + seq!['.'] + v@.subrange(fs as int, i as int),
            decreases f1 - i,
        {
            push_char(&mut out, v[i]);
            assert(v@.subrange(fs as int, i + 1) =~= v@.subrange(fs as int, i as int).push(v@[i as int]));
            i += 1;
        }
    }
    assert(out@ =~= sgn + ipart + fpart);
    Some(out)
}


/// The texts of `s` joined by `sep`, as `[T]::join` does.
pub open spec fn join(s: Seq<Seq<char>>, sep: Seq<char>) -> Seq<char>
    decreases s.len(),
{
    if s.len() == 0 {
        Seq::empty()
    } else if s.len() == 1 {
        s[0]
    } else {
        join(s.drop_last(), sep) + sep + s.last()
    }
}

/// Joining one more text adds the separator (unless it is the first) and the text.
pub proof fn lemma_join_push(s: Seq<Seq<char>>, x: Seq<char>, sep: Seq<char>)
    ensures
        join(s.push(x), sep) == (if s.len() == 0 { x } else { join(s, sep) + sep + x }),
{
    assert(s.push(x).drop_last() =~= s);
}

} // verus!
