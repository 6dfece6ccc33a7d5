//! The rules of locating and installing the Python standard library: Unix paths as
//! `std::path::Path` reads them, where the library is looked for, and which parts of the
//! downloaded archive are kept.
use vstd::prelude::*;
use vstd::string::StringExecFns;
use crate::text::{nat_text, push_nat_text, join, index_of, lemma_index_of_bounds, chars_of, find_char, sub_vec, seqs_view, same_chars, string_of, lemma_join_push};
use crate::ast::{opt_string_view, strings_view};

verus! {

/// The pieces of `s` from `i` on, split at `/`.
pub open spec fn pieces_from(s: Seq<char>, i: int) -> Seq<Seq<char>>
    decreases s.len() + 1 - i,
{
    if !(0 <= i <= s.len()) {
        Seq::empty()
    } else {
        let k = i + index_of(s.subrange(i, s.len() as int), '/');
        if i <= k < s.len() {
            seq![s.subrange(i, k)] + pieces_from(s, k + 1)
        } else {
            seq![s.subrange(i, s.len() as int)]
        }
    }
}

/// The pieces from index `k` on that `Path::components` keeps: no empty piece, and no `.`
/// but a leading one.
pub open spec fn kept_pieces(ps: Seq<Seq<char>>, k: int) -> Seq<Seq<char>>
    decreases ps.len() - k,
{
    if !(0 <= k < ps.len()) {
        Seq::empty()
    } else if ps[k].len() == 0 || (ps[k] == "."@ && k > 0) {
        kept_pieces(ps, k + 1)
    } else {
        seq![ps[k]] + kept_pieces(ps, k + 1)
    }
}

/// The components of a Unix path, as `Path::components` yields them; the root is the
/// component `/`.
pub open spec fn components(s: Seq<char>) -> Seq<Seq<char>> {
    if s.len() > 0 && s[0] == '/' {
        seq!["/"@] + kept_pieces(pieces_from(s, 0), 0)
    } else {
        kept_pieces(pieces_from(s, 0), 0)
    }
}

/// The components of the standard library's directory inside the archive.
pub open spec fn stdlib_prefix() -> Seq<Seq<char>> {
    seq!["python"@, "lib"@, "python3.12"@]
}

/// The path of an archive entry relative to the standard library's directory, when it lies
/// inside that directory (`Path::strip_prefix`); its components joined by `/`.
pub open spec fn stdlib_relative(path: Seq<char>) -> Option<Seq<char>> {
    let c = components(path);
    if c.len() >= 3 && c.take(3) == stdlib_prefix() {
        Some(join(c.skip(3), "/"@))
    } else {
        None
    }
}

/// `PathBuf::join` with a relative path: a `/` goes between unless `a` is empty or ends
/// with one.
pub open spec fn path_join(a: Seq<char>, b: Seq<char>) -> Seq<char> {
    if a.len() == 0 {
        b
    } else if a.last() == '/' {
        a + b
    } else {
        a + "/"@ + b
    }
}

/// Whether the directory of the executable lies in a `target` directory: the name of its
/// parent is `target`.
pub open spec fn in_target(exe_dir: Seq<char>) -> bool {
    let c = components(exe_dir);
    c.len() >= 2 && c[c.len() - 2] == "target"@
}

/// Where the standard library is installed: the project root (two levels up) for a build
/// under `target`, else the executable's own directory.
pub open spec fn install_root(exe_dir: Seq<char>) -> Seq<char> {
    if in_target(exe_dir) {
        path_join(path_join(exe_dir, ".."@), ".."@)
    } else {
        exe_dir
    }
}

/// The directories searched for an installed standard library, in order.
pub open spec fn candidates(exe_dir: Seq<char>) -> Seq<Seq<char>> {
    let up = path_join(exe_dir, ".."@);
    seq![
        path_join(exe_dir, "python-stdlib"@),
        path_join(path_join(up, ".."@), "python-stdlib"@),
        path_join(up, "python-stdlib"@),
        path_join(exe_dir, "lib"@),
        path_join(up, "lib"@),
    ]
}

/// A component that `Path::components` keeps anywhere in a path: not empty, not `.`, and
/// without a `/`.
pub open spec fn plain_piece(x: Seq<char>) -> bool {
    x.len() > 0 && x != "."@ && !x.contains('/')
}

/// The first `/` at or after `i`, or the end.
proof fn lemma_first_slash(s: Seq<char>, i: int)
    requires
        0 <= i <= s.len(),
    ensures
        i <= i + index_of(s.subrange(i, s.len() as int), '/') <= s.len(),
        i + index_of(s.subrange(i, s.len() as int), '/') < s.len() ==> s[i + index_of(s.subrange(i, s.len() as int), '/')] == '/',
        forall|j: int| i <= j < i + index_of(s.subrange(i, s.len() as int), '/') ==> s[j] != '/',
{
    let t = s.subrange(i, s.len() as int);
    lemma_index_of_bounds(t, '/');
    assert forall|j: int| i <= j < i + index_of(t, '/') implies s[j] != '/' by {
        assert(s[j] == t[j - i]);
    }
}

/// The pieces of a text hold no `/`.
proof fn lemma_pieces_no_slash(s: Seq<char>, i: int)
    ensures
        forall|j: int| 0 <= j < pieces_from(s, i).len() ==> !(#[trigger] pieces_from(s, i)[j]).contains('/'),
    decreases s.len() + 1 - i,
{
    if 0 <= i <= s.len() {
        lemma_first_slash(s, i);
        let k = i + index_of(s.subrange(i, s.len() as int), '/');
        let p = s.subrange(i, k);
        assert(!p.contains('/')) by {
            if p.contains('/') {
                let m = choose|m: int| 0 <= m < p.len() && p[m] == '/';
                assert(s[i + m] == '/');
            }
        }
        if i <= k < s.len() {
            lemma_pieces_no_slash(s, k + 1);
            let r = pieces_from(s, k + 1);
            assert forall|j: int| 0 <= j < pieces_from(s, i).len() implies !(#[trigger] pieces_from(s, i)[j]).contains('/') by {
                if j > 0 {
                    assert(pieces_from(s, i)[j] == r[j - 1]);
                }
            }
        } else {
            assert(p == s.subrange(i, s.len() as int));
        }
    }
}

/// The pieces kept from index `k >= 1` on are plain components.
proof fn lemma_kept_plain(ps: Seq<Seq<char>>, k: int)
    requires
        k >= 1,
        forall|j: int| 0 <= j < ps.len() ==> !(#[trigger] ps[j]).contains('/'),
    ensures
        forall|j: int| 0 <= j < kept_pieces(ps, k).len() ==> plain_piece(#[trigger] kept_pieces(ps, k)[j]),
    decreases ps.len() - k,
{
    if 0 <= k < ps.len() {
        lemma_kept_plain(ps, k + 1);
        let r = kept_pieces(ps, k + 1);
        if !(ps[k].len() == 0 || (ps[k] == "."@ && k > 0)) {
            assert forall|j: int| 0 <= j < kept_pieces(ps, k).len() implies plain_piece(#[trigger] kept_pieces(ps, k)[j]) by {
                if j > 0 {
                    assert(kept_pieces(ps, k)[j] == r[j - 1]);
                } else {
                    assert(kept_pieces(ps, k)[0] == ps[k]);
                }
            }
        }
    }
}

/// The components of a path after the first are plain.
proof fn lemma_components_plain(s: Seq<char>)
    ensures
        forall|j: int| 1 <= j < components(s).len() ==> plain_piece(#[trigger] components(s)[j]),
{
    let ps = pieces_from(s, 0);
    lemma_pieces_no_slash(s, 0);
    lemma_kept_plain(ps, 1);
    let tail = kept_pieces(ps, 1);
    if s.len() > 0 && s[0] == '/' {
        lemma_first_slash(s, 0);
        assert(index_of(s.subrange(0, s.len() as int), '/') == 0) by {
            assert(s.subrange(0, s.len() as int)[0] == '/');
        }
        assert(ps[0].len() == 0);
        assert(kept_pieces(ps, 0) == tail);
        assert forall|j: int| 1 <= j < components(s).len() implies plain_piece(#[trigger] components(s)[j]) by {
            assert(components(s)[j] == tail[j - 1]);
        }
    } else {
        assert forall|j: int| 1 <= j < components(s).len() implies plain_piece(#[trigger] components(s)[j]) by {
            if ps.len() > 0 && !(ps[0].len() == 0) {
                assert(components(s)[j] == tail[j - 1]);
            } else {
                assert(components(s)[j] == tail[j]);
            }
        }
    }
}

/// Pieces of a text shifted by a prefix: reading from inside `y` of `x + y` reads `y`.
proof fn lemma_pieces_shift(x: Seq<char>, y: Seq<char>, j: int)
    requires
        0 <= j <= y.len(),
    ensures
        pieces_from(x + y, x.len() + j) == pieces_from(y, j),
    decreases y.len() + 1 - j,
{
    let s = x + y;
    assert(s.subrange(x.len() + j, s.len() as int) =~= y.subrange(j, y.len() as int));
    let k = j + index_of(y.subrange(j, y.len() as int), '/');
    lemma_first_slash(y, j);
    if j <= k < y.len() {
        lemma_pieces_shift(x, y, k + 1);
        assert(s.subrange(x.len() + j, x.len() + k) =~= y.subrange(j, k));
    } else {
        assert(s.subrange(x.len() + j, s.len() as int) =~= y.subrange(j, y.len() as int));
    }
}

/// The pieces of `a/b` are those of `a` followed by those of `b`.
proof fn lemma_pieces_concat(a: Seq<char>, b: Seq<char>, i: int)
    requires
        0 <= i <= a.len(),
    ensures
        pieces_from(a + "/"@ + b, i) == pieces_from(a, i) + pieces_from(b, 0),
    decreases a.len() - i,
{
    reveal_strlit("/");
    let s = a + "/"@ + b;
    assert(s.len() == a.len() + 1 + b.len());
    lemma_first_slash(a, i);
    lemma_first_slash(s, i);
    let ka = i + index_of(a.subrange(i, a.len() as int), '/');
    let ks = i + index_of(s.subrange(i, s.len() as int), '/');
    assert(forall|j: int| 0 <= j < a.len() ==> s[j] == a[j]);
    assert(s[a.len() as int] == '/');
    if ka < a.len() {
        assert(ks == ka) by {
            if ks < ka {
                assert(s[ks] == a[ks]);
            }
            if ks > ka {
                assert(s[ka] == a[ka]);
            }
        }
        lemma_pieces_concat(a, b, ka + 1);
        assert(s.subrange(i, ks) =~= a.subrange(i, ka));
        assert(pieces_from(s, i) =~= seq![a.subrange(i, ka)] + pieces_from(s, ka + 1));
        assert(pieces_from(a, i) =~= seq![a.subrange(i, ka)] + pieces_from(a, ka + 1));
        assert(pieces_from(s, i) =~= pieces_from(a, i) + pieces_from(b, 0));
    } else {
        assert(ks == a.len()) by {
            if ks < a.len() {
                assert(s[ks] == a[ks]);
            }
        }
        assert(s =~= (a + "/"@) + b);
        lemma_pieces_shift(a + "/"@, b, 0);
        assert(s.subrange(i, ks) =~= a.subrange(i, a.len() as int));
        assert(pieces_from(s, i) =~= seq![a.subrange(i, a.len() as int)] + pieces_from(s, ks + 1));
        assert(pieces_from(s, i) =~= pieces_from(a, i) + pieces_from(b, 0));
    }
}

/// A text without `/` is a single piece.
proof fn lemma_pieces_single(x: Seq<char>)
    requires
        !x.contains('/'),
    ensures
        pieces_from(x, 0) == seq![x],
{
    lemma_first_slash(x, 0);
    let k = index_of(x.subrange(0, x.len() as int), '/');
    if k < x.len() {
        assert(x[k] == '/');
    }
    assert(x.subrange(0, x.len() as int) =~= x);
}

/// Splitting the `/`-join of pieces without `/` gives the pieces back.
proof fn lemma_pieces_join(cs: Seq<Seq<char>>)
    requires
        cs.len() >= 1,
        forall|j: int| 0 <= j < cs.len() ==> !(#[trigger] cs[j]).contains('/'),
    ensures
        pieces_from(join(cs, "/"@), 0) == cs,
    decreases cs.len(),
{
    if cs.len() == 1 {
        lemma_pieces_single(cs[0]);
        assert(seq![cs[0]] =~= cs);
    } else {
        let init = cs.drop_last();
        assert forall|j: int| 0 <= j < init.len() implies !(#[trigger] init[j]).contains('/') by {
            assert(init[j] == cs[j]);
        }
        lemma_pieces_join(init);
        lemma_pieces_concat(join(init, "/"@), cs.last(), 0);
        lemma_pieces_single(cs.last());
        assert(init + seq![cs.last()] =~= cs);
    }
}

/// Keeping the plain pieces of a sequence of plain pieces keeps them all.
proof fn lemma_kept_all(cs: Seq<Seq<char>>, k: int)
    requires
        0 <= k <= cs.len(),
        forall|j: int| 0 <= j < cs.len() ==> plain_piece(#[trigger] cs[j]),
    ensures
        kept_pieces(cs, k) == cs.skip(k),
    decreases cs.len() - k,
{
    if k < cs.len() {
        lemma_kept_all(cs, k + 1);
        assert(plain_piece(cs[k]));
        assert(seq![cs[k]] + cs.skip(k + 1) =~= cs.skip(k));
    } else {
        assert(cs.skip(k) =~= Seq::<Seq<char>>::empty());
    }
}

/// The path that `strip_stdlib_prefix` returns for an archive entry has exactly the entry's
/// components below the standard library's directory, so that joining it onto the
/// directory that the library is unpacked to puts the entry at the same place below it.
pub proof fn lemma_stdlib_relative_components(path: Seq<char>)
    requires
        stdlib_relative(path) is Some,
    ensures
        components(stdlib_relative(path).unwrap()) == components(path).skip(3),
{
    let c = components(path);
    let cs = c.skip(3);
    lemma_components_plain(path);
    assert forall|j: int| 0 <= j < cs.len() implies plain_piece(#[trigger] cs[j]) by {
        assert(cs[j] == c[j + 3]);
    }
    let r = join(cs, "/"@);
    if cs.len() == 0 {
        assert(r =~= Seq::<char>::empty());
        lemma_first_slash(r, 0);
        assert(r.subrange(0, 0) =~= Seq::<char>::empty());
        assert(pieces_from(r, 0) =~= seq![Seq::<char>::empty()]);
        assert(kept_pieces(seq![Seq::<char>::empty()], 1) =~= Seq::<Seq<char>>::empty());
        assert(components(r) =~= cs);
    } else {
        lemma_pieces_join(cs);
        lemma_kept_all(cs, 0);
        assert(cs.skip(0) =~= cs);
        assert(r.len() > 0 ==> r[0] != '/') by {
            lemma_join_first(cs);
        }
        if r.len() > 0 {
            assert(r[0] != '/');
        }
        assert(components(r) == kept_pieces(pieces_from(r, 0), 0));
    }
}

/// The standard library's directory inside the archive, `python/lib/python3.12`.
pub open spec fn stdlib_dir() -> Seq<char> {
    join(stdlib_prefix(), "/"@)
}

proof fn lemma_stdlib_dir()
    ensures
        forall|j: int| 0 <= j < stdlib_prefix().len() ==> plain_piece(#[trigger] stdlib_prefix()[j]),
        stdlib_dir().len() > 0,
        stdlib_dir()[0] == 'p',
        stdlib_dir().last() == '2',
{
    reveal_strlit("python");
    reveal_strlit("lib");
    reveal_strlit("python3.12");
    reveal_strlit(".");
    reveal_strlit("/");
    let pre = stdlib_prefix();
    assert forall|j: int| 0 <= j < pre.len() implies plain_piece(#[trigger] pre[j]) by {
        if j == 0 {
            assert(!"python"@.contains('/'));
            assert("python"@.len() != "."@.len());
        } else if j == 1 {
            assert(!"lib"@.contains('/'));
            assert("lib"@ != "."@);
        } else {
            assert(!"python3.12"@.contains('/'));
            assert("python3.12"@.len() != "."@.len());
        }
    }
    assert(stdlib_dir() =~= "python"@ + "/"@ + "lib"@ + "/"@ + "python3.12"@) by {
        reveal_with_fuel(join, 3);
        assert(pre.drop_last() =~= seq!["python"@, "lib"@]);
        assert(pre.drop_last().drop_last() =~= seq!["python"@]);
    }
}

/// Keeping the pieces of plain pieces followed by an empty one keeps the plain pieces.
proof fn lemma_kept_then_empty(cs: Seq<Seq<char>>, k: int)
    requires
        0 <= k <= cs.len(),
        forall|j: int| 0 <= j < cs.len() ==> plain_piece(#[trigger] cs[j]),
    ensures
        kept_pieces(cs.push(Seq::empty()), k) == cs.skip(k),
    decreases cs.len() - k,
{
    let ps = cs.push(Seq::<char>::empty());
    if k < cs.len() {
        lemma_kept_then_empty(cs, k + 1);
        assert(ps[k] == cs[k]);
        assert(plain_piece(cs[k]));
        assert(seq![cs[k]] + cs.skip(k + 1) =~= cs.skip(k));
    } else {
        assert(ps[k].len() == 0);
        assert(kept_pieces(ps, k + 1) =~= Seq::<Seq<char>>::empty());
        assert(cs.skip(k) =~= Seq::<Seq<char>>::empty());
    }
}

/// Joining the relative path that `strip_stdlib_prefix` returns back onto the standard
/// library's directory gives the entry's path again (as `Path` compares paths: by their
/// components).
pub proof fn lemma_stdlib_relative_rejoins(path: Seq<char>)
    requires
        stdlib_relative(path) is Some,
    ensures
        components(path_join(stdlib_dir(), stdlib_relative(path).unwrap())) == components(path),
{
    reveal_strlit("/");
    let c = components(path);
    let pre = stdlib_prefix();
    let cs = c.skip(3);
    let r = join(cs, "/"@);
    let d = stdlib_dir();
    lemma_stdlib_dir();
    lemma_components_plain(path);
    assert forall|j: int| 0 <= j < cs.len() implies plain_piece(#[trigger] cs[j]) by {
        assert(cs[j] == c[j + 3]);
    }
    assert(c =~= pre + cs);
    let joined = path_join(d, r);
    assert(joined == d + "/"@ + r);
    assert(forall|j: int| 0 <= j < pre.len() ==> !(#[trigger] pre[j]).contains('/'));
    lemma_pieces_join(pre);
    lemma_pieces_concat(d, r, 0);
    assert(joined[0] == 'p');
    if cs.len() == 0 {
        assert(r =~= Seq::<char>::empty());
        lemma_first_slash(r, 0);
        assert(r.subrange(0, 0) =~= Seq::<char>::empty());
        assert(pieces_from(r, 0) =~= seq![Seq::<char>::empty()]);
        assert(pieces_from(joined, 0) =~= pre.push(Seq::<char>::empty()));
        lemma_kept_then_empty(pre, 0);
        assert(pre.skip(0) =~= pre);
        assert(c =~= pre);
    } else {
        lemma_pieces_join(cs);
        assert(pieces_from(joined, 0) =~= pre + cs);
        assert forall|j: int| 0 <= j < (pre + cs).len() implies plain_piece(#[trigger] (pre + cs)[j]) by {
            if j < pre.len() {
                assert((pre + cs)[j] == pre[j]);
            } else {
                assert((pre + cs)[j] == cs[j - pre.len()]);
            }
        }
        lemma_kept_all(pre + cs, 0);
        assert((pre + cs).skip(0) =~= pre + cs);
    }
}

/// `strip_stdlib_prefix` finds a relative path exactly when the entry's path begins with
/// the components of the standard library's directory (`Path::starts_with`: whole
/// components, so `python/lib/python3.12x` does not).
pub proof fn lemma_stdlib_relative_exists(path: Seq<char>)
    ensures
        (stdlib_relative(path) is Some) <==> (components(path).len() >= components(stdlib_dir()).len()
            && components(path).take(components(stdlib_dir()).len() as int) == components(stdlib_dir())),
{
    let pre = stdlib_prefix();
    lemma_stdlib_dir();
    assert(forall|j: int| 0 <= j < pre.len() ==> !(#[trigger] pre[j]).contains('/'));
    lemma_pieces_join(pre);
    lemma_kept_all(pre, 0);
    assert(pre.skip(0) =~= pre);
    assert(components(stdlib_dir()) == pre);
}

/// The `/`-join of plain pieces begins with the first piece's first character.
proof fn lemma_join_first(cs: Seq<Seq<char>>)
    requires
        cs.len() >= 1,
        forall|j: int| 0 <= j < cs.len() ==> plain_piece(#[trigger] cs[j]),
    ensures
        join(cs, "/"@).len() > 0,
        join(cs, "/"@)[0] == cs[0][0],
    decreases cs.len(),
{
    assert(plain_piece(cs[0]));
    if cs.len() > 1 {
        let init = cs.drop_last();
        assert forall|j: int| 0 <= j < init.len() implies plain_piece(#[trigger] init[j]) by {
            assert(init[j] == cs[j]);
        }
        lemma_join_first(init);
    }
}

/// The pieces of a text split at `/`.
fn split_pieces(v: &Vec<char>) -> (r: Vec<Vec<char>>)
    requires
        v@.len() < usize::MAX,
    ensures
        seqs_view(r@) == pieces_from(v@, 0),
{
    let mut r: Vec<Vec<char>> = Vec::new();
    let mut i: usize = 0;
    loop
        invariant
            i <= v@.len() < usize::MAX,
            seqs_view(r@) + pieces_from(v@, i as int) == pieces_from(v@, 0),
        decreases v@.len() - i,
    {
        let ghost before = seqs_view(r@);
        let k = find_char(v, i, '/');
        proof {
            lemma_index_of_bounds(v@.subrange(i as int, v@.len() as int), '/');
        }
        let piece = sub_vec(v, i, k);
        r.push(piece);
        assert(seqs_view(r@) =~= before.push(piece@));
        if k < v.len() {
            assert(seqs_view(r@) + pieces_from(v@, k + 1) =~= before + pieces_from(v@, i as int));
            i = k + 1;
        } else {
            assert(seqs_view(r@) =~= before + pieces_from(v@, i as int));
            return r;
        }
    }
}

/// The components of a Unix path, as `Path::components` yields them.
fn components_exec(v: &Vec<char>) -> (r: Vec<Vec<char>>)
    requires
        v@.len() < usize::MAX,
    ensures
        seqs_view(r@) == components(v@),
{
    let ps = split_pieces(v);
    let ghost pv = seqs_view(ps@);
    let mut r: Vec<Vec<char>> = Vec::new();
    if v.len() > 0 && v[0] == '/' {
        r.push(chars_of("/"));
    }
    let ghost r0 = seqs_view(r@);
    let dot = chars_of(".");
    let mut k: usize = 0;
    while k < ps.len()
        invariant
            k <= ps@.len(),
            pv == seqs_view(ps@),
            dot@ == "."@,
            seqs_view(r@) + kept_pieces(pv, k as int) == r0 + kept_pieces(pv, 0),
        decreases ps@.len() - k,
    {
        let ghost before = seqs_view(r@);
        let p = &ps[k];
        if p.len() == 0 || (k > 0 && same_chars(p, &dot)) {
            assert(seqs_view(r@) + kept_pieces(pv, k + 1) =~= before + kept_pieces(pv, k as int));
        } else {
            let c = sub_vec(p, 0, p.len());
            assert(c@ =~= p@);
            r.push(c);
            assert(seqs_view(r@) + kept_pieces(pv, k + 1) =~= before + kept_pieces(pv, k as int));
        }
        k += 1;
    }
    assert(seqs_view(r@) =~= seqs_view(r@) + kept_pieces(pv, k as int));
    assert(seqs_view(r@) =~= components(v@));
    r
}

/// The components from index `from` on, joined by `/`.
fn join_components(c: &Vec<Vec<char>>, from: usize) -> (s: String)
    requires
        from <= c@.len(),
    ensures
        s@ == join(seqs_view(c@).skip(from as int), "/"@),
{
    let ghost ts = seqs_view(c@).skip(from as int);
    let mut s = String::new();
    let mut j: usize = from;
    while j < c.len()
        invariant
            from <= j <= c@.len(),
            ts == seqs_view(c@).skip(from as int),
            s@ == join(ts.take(j - from), "/"@),
        decreases c@.len() - j,
    {
        if j > from {
            s.append("/");
        }
        let piece = string_of(&c[j]);
        s.append(piece.as_str());
        proof {
            lemma_join_push(ts.take(j - from), ts[j - from], "/"@);
            assert(ts.take(j - from + 1) =~= ts.take(j - from).push(ts[j - from]));
        }
        j += 1;
    }
    assert(ts.take(c@.len() - from) =~= ts);
    s
}

/// The path of an archive entry relative to the standard library's directory
/// `python/lib/python3.12`, or `None` for an entry outside it.
pub fn strip_stdlib_prefix(path: &str) -> (r: Option<String>)
    requires
        path@.len() < usize::MAX,
    ensures
        opt_string_view(r) == stdlib_relative(path@),
{
    let v = chars_of(path);
    let c = components_exec(&v);
    if c.len() >= 3 && same_chars(&c[0], &chars_of("python")) && same_chars(&c[1], &chars_of("lib"))
        && same_chars(&c[2], &chars_of("python3.12")) {
        assert(seqs_view(c@).take(3) =~= stdlib_prefix());
        Some(join_components(&c, 3))
    } else {
        proof {
            if c@.len() >= 3 && seqs_view(c@).take(3) == stdlib_prefix() {
                assert(seqs_view(c@).take(3)[0] == c@[0]@);
                assert(seqs_view(c@).take(3)[1] == c@[1]@);
                assert(seqs_view(c@).take(3)[2] == c@[2]@);
            }
        }
        None
    }
}

/// `PathBuf::join` with a relative path.
fn path_join_exec(a: &String, b: &str) -> (r: String)
    ensures
        r@ == path_join(a@, b@),
{
    let v = chars_of(a.as_str());
    let mut r = a.clone();
    if v.len() == 0 {
        let r2 = b.to_owned();
        return r2;
    }
    if v[v.len() - 1] != '/' {
        r.append("/");
    }
    r.append(b);
    r
}

fn in_target_exec(exe_dir: &str) -> (b: bool)
    requires
        exe_dir@.len() < usize::MAX,
    ensures
        b == in_target(exe_dir@),
{
    let c = components_exec(&chars_of(exe_dir));
    c.len() >= 2 && same_chars(&c[c.len() - 2], &chars_of("target"))
}

/// Where the standard library is installed: two levels above the executable's directory
/// when that directory lies in a `target` directory (a development build), else the
/// executable's directory itself.
pub fn install_root_for(exe_dir: &str) -> (r: String)
    requires
        exe_dir@.len() < usize::MAX,
    ensures
        r@ == install_root(exe_dir@),
{
    let d = exe_dir.to_owned();
    if in_target_exec(exe_dir) {
        let up = path_join_exec(&d, "..");
        path_join_exec(&up, "..")
    } else {
        d
    }
}

/// The directories searched for an installed standard library, in order of preference.
pub fn stdlib_candidates(exe_dir: &str) -> (r: Vec<String>)
    ensures
        strings_view(r@) == candidates(exe_dir@),
{
    let d = exe_dir.to_owned();
    let up = path_join_exec(&d, "..");
    let up2 = path_join_exec(&up, "..");
    let mut r: Vec<String> = Vec::new();
    r.push(path_join_exec(&d, "python-stdlib"));
    r.push(path_join_exec(&up2, "python-stdlib"));
    r.push(path_join_exec(&up, "python-stdlib"));
    r.push(path_join_exec(&d, "lib"));
    r.push(path_join_exec(&up, "lib"));
    assert(strings_view(r@) =~= candidates(exe_dir@));
    r
}

/// Whether `s` begins with `p`.
pub open spec fn starts_with(s: Seq<char>, p: Seq<char>) -> bool {
    p.len() <= s.len() && s.take(p.len() as int) == p
}

/// Whether `s` ends with `p`.
pub open spec fn ends_with(s: Seq<char>, p: Seq<char>) -> bool {
    p.len() <= s.len() && s.skip(s.len() - p.len()) == p
}

fn starts_with_exec(s: &Vec<char>, p: &Vec<char>) -> (b: bool)
    ensures
        b == starts_with(s@, p@),
{
    if p.len() > s.len() {
        return false;
    }
    let head = sub_vec(s, 0, p.len());
    assert(head@ =~= s@.take(p@.len() as int));
    same_chars(&head, p)
}

fn ends_with_exec(s: &Vec<char>, p: &Vec<char>) -> (b: bool)
    ensures
        b == ends_with(s@, p@),
{
    if p.len() > s.len() {
        return false;
    }
    let tail = sub_vec(s, s.len() - p.len(), s.len());
    assert(tail@ =~= s@.skip(s@.len() - p@.len()));
    same_chars(&tail, p)
}

/// A directory entry that holds the standard library: `python3.*` or `Lib`.
pub open spec fn is_stdlib_dir(name: Seq<char>) -> bool {
    starts_with(name, "python3."@) || name == "Lib"@
}

/// Whether a directory entry named `name` holds the standard library.
pub fn is_stdlib_dir_name(name: &str) -> (b: bool)
    ensures
        b == is_stdlib_dir(name@),
{
    let v = chars_of(name);
    starts_with_exec(&v, &chars_of("python3.")) || same_chars(&v, &chars_of("Lib"))
}

/// A compiled Python file: one whose extension is `pyc` or `pyo` (a name that is only
/// the extension, such as `.pyc`, has none).
pub open spec fn is_compiled(name: Seq<char>) -> bool {
    name.len() > 4 && (ends_with(name, ".pyc"@) || ends_with(name, ".pyo"@))
}

/// Whether the file named `name` is a compiled Python file.
pub fn is_compiled_file(name: &str) -> (b: bool)
    ensures
        b == is_compiled(name@),
{
    let v = chars_of(name);
    v.len() > 4 && (ends_with_exec(&v, &chars_of(".pyc")) || ends_with_exec(&v, &chars_of(".pyo")))
}

/// The directories of the standard library that are removed after it is unpacked.
pub open spec fn removable_dirs() -> Seq<Seq<char>> {
    seq![
        "test"@,
        "tkinter"@,
        "idlelib"@,
        "ensurepip"@,
        "lib2to3"@,
        "distutils"@,
        "site-packages"@,
        "turtledemo"@,
        "__pycache__"@,
    ]
}

/// The names of the standard library's directories that are removed after unpacking.
pub fn removable_stdlib_dirs() -> (r: Vec<String>)
    ensures
        strings_view(r@) == removable_dirs(),
{
    let mut r: Vec<String> = Vec::new();
    r.push("test".to_owned());
    r.push("tkinter".to_owned());
    r.push("idlelib".to_owned());
    r.push("ensurepip".to_owned());
    r.push("lib2to3".to_owned());
    r.push("distutils".to_owned());
    r.push("site-packages".to_owned());
    r.push("turtledemo".to_owned());
    r.push("__pycache__".to_owned());
    assert(strings_view(r@) =~= removable_dirs());
    r
}

/// The platform name of an operating system in release archive names.
pub open spec fn os_tag(os: Seq<char>) -> Option<Seq<char>> {
    if os == "linux"@ {
        Some("unknown-linux-gnu"@)
    } else if os == "macos"@ {
        Some("apple-darwin"@)
    } else if os == "windows"@ {
        Some("pc-windows-msvc"@)
    } else {
        None
    }
}

/// The architecture name of a CPU in release archive names.
pub open spec fn arch_tag(arch: Seq<char>) -> Option<Seq<char>> {
    if arch == "x86_64"@ || arch == "amd64"@ {
        Some("x86_64"@)
    } else if arch == "aarch64"@ || arch == "arm64"@ {
        Some("aarch64"@)
    } else {
        None
    }
}

fn str_is(s: &str, lit: &str) -> (b: bool)
    ensures
        b == (s@ == lit@),
{
    let a = s.to_owned();
    let b = lit.to_owned();
    a == b
}

/// The platform and architecture names of release archives for an operating system and a
/// CPU architecture (as `std::env::consts` names them); an error names what is not
/// supported, the operating system first.
pub fn platform_tags(os: &str, arch: &str) -> (r: Result<(String, String), String>)
    ensures
        match r {
            Ok((o, a)) => os_tag(os@) == Some(o@) && arch_tag(arch@) == Some(a@),
            Err(e) => if os_tag(os@) is None {
                e@ == "不支持的操作系统: "@ + os@
            } else {
                arch_tag(arch@) is None && e@ == "不支持的 CPU 架构: "@ + arch@
            },
        },
{
    let o = if str_is(os, "linux") {
        "unknown-linux-gnu".to_owned()
    } else if str_is(os, "macos") {
        "apple-darwin".to_owned()
    } else if str_is(os, "windows") {
        "pc-windows-msvc".to_owned()
    } else {
        let mut e = "不支持的操作系统: ".to_owned();
        e.append(os);
        return Err(e);
    };
    let a = if str_is(arch, "x86_64") || str_is(arch, "amd64") {
        "x86_64".to_owned()
    } else if str_is(arch, "aarch64") || str_is(arch, "arm64") {
        "aarch64".to_owned()
    } else {
        let mut e = "不支持的 CPU 架构: ".to_owned();
        e.append(arch);
        return Err(e);
    };
    Ok((o, a))
}

/// The file name of the release archive for an architecture and platform.
pub fn archive_name(arch_tag: &str, os_tag: &str) -> (r: String)
    ensures
        r@ == "cpython-3.12.13+20260718-"@ + arch_tag@ + "-"@ + os_tag@ + "-install_only.tar.gz"@,
{
    let mut r = "cpython-3.12.13+20260718-".to_owned();
    r.append(arch_tag);
    r.append("-");
    r.append(os_tag);
    r.append("-install_only.tar.gz");
    r
}

/// The download address of a release archive.
pub fn archive_url(archive_name: &str) -> (r: String)
    ensures
        r@ == "https://github.com/astral-sh/python-build-standalone/releases/download/20260718/"@ + archive_name@,
{
    let mut r = "https://github.com/astral-sh/python-build-standalone/releases/download/20260718/".to_owned();
    r.append(archive_name);
    r
}

/// The bytes in a megabyte.
pub open spec fn mb_bytes() -> nat {
    1048576
}

/// The progress line for `mb` megabytes downloaded of `total` bytes (0 when unknown).
pub open spec fn progress_line(mb: nat, total: nat) -> Seq<char> {
    if total > 0 {
        "[pycn] 下载进度: "@ + nat_text(mb) + " MB / "@ + nat_text(total / mb_bytes()) + " MB"@
    } else {
        "[pycn] 下载进度: "@ + nat_text(mb) + " MB"@
    }
}

/// One step of the download loop after a read of `n` bytes: the bytes written so far, the
/// whole megabytes last reported, and the progress line to print when that count changed.
pub fn download_progress(written: u64, n: u64, reported_mb: u64, total: u64) -> (r: (u64, u64, Option<String>))
    requires
        written + n <= u64::MAX,
    ensures
        r.0 == written + n,
        r.2 is Some <==> (r.0 / (mb_bytes() as u64)) != reported_mb,
        r.1 == (if r.2 is Some { r.0 / (mb_bytes() as u64) } else { reported_mb }),
        r.2 is Some ==> r.2.unwrap()@ == progress_line(r.1 as nat, total as nat),
{
    let w = written + n;
    let mb = w / (1024 * 1024);
    if mb != reported_mb {
        let mut line = "[pycn] 下载进度: ".to_owned();
        push_nat_text(&mut line, mb as u128);
        if total > 0 {
            line.append(" MB / ");
            push_nat_text(&mut line, (total / (1024 * 1024)) as u128);
            line.append(" MB");
        } else {
            line.append(" MB");
        }
        (w, mb, Some(line))
    } else {
        (w, reported_mb, None)
    }
}


/// Both names of 64-bit ARM, `aarch64` (Linux) and `arm64` (macOS), are supported and name the
/// same archive architecture, `aarch64`; so do `x86_64` and `amd64`, as `x86_64`.
pub proof fn lemma_arm64_and_x86_64_supported()
    ensures
        arch_tag("aarch64"@) == Some("aarch64"@),
        arch_tag("arm64"@) == arch_tag("aarch64"@),
        arch_tag("x86_64"@) == Some("x86_64"@),
        arch_tag("amd64"@) == arch_tag("x86_64"@),
{
    reveal_strlit("aarch64");
    reveal_strlit("arm64");
    reveal_strlit("x86_64");
    reveal_strlit("amd64");
    assert("arm64"@[0] != "x86_64"@[0]);
    assert("arm64"@[1] != "amd64"@[1]);
    assert("aarch64"@[0] != "x86_64"@[0]);
    assert("aarch64"@[1] != "amd64"@[1]);
}

} // verus!
