//! The modules that a program imports, and where their sources are found.
use vstd::prelude::*;
use vstd::string::StringExecFns;
use crate::ast::{AstNode, SpecAst, node_view, nodes_view, strings_view};

verus! {

/// The modules named by the import statements of a program, in order. Only the statements
/// at the top level of the program count.
pub open spec fn imports_of(n: SpecAst) -> Seq<Seq<char>>
    decreases n, 1int, 0int,
{
    match n {
        SpecAst::Program(stmts) => imports_seq(stmts, stmts.len() as int),
        SpecAst::Import { module, .. } => seq![module],
        SpecAst::ImportFrom { module, .. } => seq![module],
        _ => Seq::empty(),
    }
}

/// The modules imported by the first `k` statements of `s`.
pub open spec fn imports_seq(s: Seq<SpecAst>, k: int) -> Seq<Seq<char>>
    decreases s, 0int, k,
{
    if 0 < k <= s.len() {
        imports_seq(s, k - 1) + imports_of(s[k - 1])
    } else {
        Seq::empty()
    }
}

/// The modules that a program imports, in order.
pub fn imported_modules(ast: &AstNode) -> (r: Vec<String>)
    ensures
        strings_view(r@) == imports_of(ast@),
    decreases ast,
{
    match ast {
        AstNode::Program(stmts) => {
            let ghost sv = nodes_view(stmts@);
            let mut r: Vec<String> = Vec::new();
            let mut i: usize = 0;
            while i < stmts.len()
                invariant
                    i <= stmts@.len(),
                    *ast == AstNode::Program(*stmts),
                    sv == nodes_view(stmts@),
                    strings_view(r@) == imports_seq(sv, i as int),
                decreases stmts@.len() - i,
            {
                proof {
                    assert(decreases_to!(*ast => ast->Program_0));
                    assert(decreases_to!(stmts => stmts@));
                    assert(decreases_to!(stmts@ => stmts@[i as int]));
                }
                let ghost before = strings_view(r@);
                let mut sub = imported_modules(&stmts[i]);
                let ghost subv = strings_view(sub@);
                r.append(&mut sub);
                assert(strings_view(r@) =~= before + subv);
                assert(imports_seq(sv, i + 1) == imports_seq(sv, i as int) + imports_of(sv[i as int]));
                i += 1;
            }
            r
        },
        AstNode::Import { module, .. } => {
            let mut r: Vec<String> = Vec::new();
            r.push(module.clone());
            assert(strings_view(r@) =~= imports_of(ast@));
            r
        },
        AstNode::ImportFrom { module, .. } => {
            let mut r: Vec<String> = Vec::new();
            r.push(module.clone());
            assert(strings_view(r@) =~= imports_of(ast@));
            r
        },
        _ => {
            let r: Vec<String> = Vec::new();
            assert(strings_view(r@) =~= imports_of(ast@));
            r
        },
    }
}

/// The file that holds the source of a module: its name with the extension `.pycn`, next
/// to the importing file.
pub fn module_file_name(module: &str) -> (r: String)
    ensures
        r@ == module@ + ".pycn"@,
{
    let mut r = module.to_owned();
    r.append(".pycn");
    r
}


/// An `import` statement reports the module it names, whatever alias it gives it; an
/// import statement added at the end of a program adds its module at the end of the list.
pub proof fn lemma_import_reports_module(stmts: Seq<SpecAst>, module: Seq<char>, alias: Option<Seq<char>>)
    ensures
        imports_of(SpecAst::Import { module, alias }) == seq![module],
        imports_of(SpecAst::Program(stmts.push(SpecAst::Import { module, alias }))) == imports_of(
            SpecAst::Program(stmts),
        ).push(module),
{
    let s2 = stmts.push(SpecAst::Import { module, alias });
    assert forall|k: int| 0 <= k <= stmts.len() implies #[trigger] imports_seq(s2, k) == imports_seq(stmts, k) by {
        lemma_imports_seq_prefix(stmts, s2, k);
    }
    assert(s2[stmts.len() as int] == SpecAst::Import { module, alias });
    assert(imports_of(s2[stmts.len() as int]) == seq![module]);
    assert(0 < s2.len() as int <= s2.len());
    assert(imports_seq(s2, s2.len() as int) == imports_seq(s2, s2.len() - 1) + imports_of(s2[s2.len() - 1]));
    assert(imports_seq(s2, s2.len() as int) == imports_seq(s2, stmts.len() as int) + seq![module]);
    assert(imports_seq(s2, s2.len() as int) =~= imports_seq(stmts, stmts.len() as int).push(module));
}

proof fn lemma_imports_seq_prefix(a: Seq<SpecAst>, b: Seq<SpecAst>, k: int)
    requires
        0 <= k <= a.len() <= b.len(),
        forall|i: int| 0 <= i < a.len() ==> a[i] == b[i],
    ensures
        imports_seq(b, k) == imports_seq(a, k),
    decreases k,
{
    if k > 0 {
        lemma_imports_seq_prefix(a, b, k - 1);
    }
}

} // verus!
