//! The set of imported modules, the entrypoint test, and the files that
//! nothing imports.
use crate::order::{contains_sorted, insert_sorted, lemma_sorted_unique, sorted_set, strictly_sorted};
use crate::paths::{dotted_of, ends_with, ext, has_suffix, relative_file, relative_file_of, to_dotted};
use crate::resolve::{
    import_views, resolve_spec, resolve_statement, texts, Import, PathKinds, RawImport,
};
use vstd::prelude::*;
use vstd::string::*;

verus! {

/// The module name of a package initializer.
pub open spec fn init_module() -> Seq<char> {
    seq!['_', '_', 'i', 'n', 'i', 't', '_', '_']
}

/// The file name of a package initializer.
pub open spec fn init_file() -> Seq<char> {
    init_module() + ext()
}

/// The key under which an import enters the imported set: a module by its
/// dotted name, a package by the dotted name of its initializer.
pub open spec fn imported_key(i: (bool, Seq<char>)) -> Seq<char> {
    if i.0 {
        i.1 + seq!['.'] + init_module()
    } else {
        i.1
    }
}

/// Turns resolved imports into the keys of the imported set, one for each.
pub fn resolve_imports(imports: Vec<Import>) -> (r: Vec<String>)
    ensures
        texts(r@) == import_views(imports@).map_values(|i: (bool, Seq<char>)| imported_key(i)),
{
    let suffix = ".__init__";
    proof {
        reveal_strlit(".__init__");
    }
    assert(suffix@ =~= seq!['.'] + init_module());
    let mut out: Vec<String> = Vec::new();
    let mut i: usize = 0;
    while i < imports.len()
        invariant
            i <= imports@.len(),
            suffix@ == seq!['.'] + init_module(),
            out@.len() == i,
            forall|k: int| 0 <= k < i ==> out@[k]@ == imported_key(imports@[k]@),
        decreases imports@.len() - i,
    {
        let key = match &imports[i] {
            Import::Module(m) => m.clone(),
            Import::Package(p) => p.clone().concat(suffix),
        };
        out.push(key);
        i = i + 1;
    }
    assert(texts(out@) =~= import_views(imports@).map_values(
        |i: (bool, Seq<char>)| imported_key(i),
    ));
    out
}

/// A source file of the project with the import statements it holds.
pub struct SourceFile {
    pub path: String,
    pub statements: Vec<RawImport>,
}

/// The keys that one statement in `file` adds: none when it names nothing.
pub open spec fn statement_keys(
    st: RawImport,
    file: Seq<char>,
    root: Seq<char>,
    kinds: PathKinds,
) -> Seq<Seq<char>> {
    match resolve_spec(st, file, root, kinds) {
        Some(v) => v.map_values(|i: (bool, Seq<char>)| imported_key(i)),
        None => Seq::empty(),
    }
}

/// The keys that the statements `stmts` of `file` add, in order.
pub open spec fn file_keys(
    stmts: Seq<RawImport>,
    file: Seq<char>,
    root: Seq<char>,
    kinds: PathKinds,
) -> Seq<Seq<char>>
    decreases stmts.len(),
{
    if stmts.len() == 0 {
        Seq::empty()
    } else {
        file_keys(stmts.drop_last(), file, root, kinds) + statement_keys(
            stmts.last(),
            file,
            root,
            kinds,
        )
    }
}

/// The keys that all of `files` add, file after file.
pub open spec fn project_keys(files: Seq<SourceFile>, root: Seq<char>, kinds: PathKinds) -> Seq<
    Seq<char>,
>
    decreases files.len(),
{
    if files.len() == 0 {
        Seq::empty()
    } else {
        project_keys(files.drop_last(), root, kinds) + file_keys(
            files.last().statements@,
            files.last().path@,
            root,
            kinds,
        )
    }
}

proof fn lemma_project_keys_concat(
    a: Seq<SourceFile>,
    b: Seq<SourceFile>,
    root: Seq<char>,
    kinds: PathKinds,
)
    ensures
        project_keys(a + b, root, kinds) == project_keys(a, root, kinds) + project_keys(
            b,
            root,
            kinds,
        ),
    decreases b.len(),
{
    if b.len() == 0 {
        assert(a + b =~= a);
        assert(project_keys(a, root, kinds) + project_keys(b, root, kinds) =~= project_keys(
            a,
            root,
            kinds,
        ));
    } else {
        lemma_project_keys_concat(a, b.drop_last(), root, kinds);
        assert((a + b).drop_last() =~= a + b.drop_last());
        assert((a + b).last() == b.last());
        assert(project_keys(a + b, root, kinds) =~= project_keys(a, root, kinds) + project_keys(
            b,
            root,
            kinds,
        ));
    }
}

/// The imported keys do not depend on the order in which the files come:
/// for any reordering of the same files, `build_imported_set` yields the
/// same keys, each as many times.
pub proof fn lemma_imported_keys_permutation(
    f1: Seq<SourceFile>,
    f2: Seq<SourceFile>,
    root: Seq<char>,
    kinds: PathKinds,
)
    requires
        f1.to_multiset() == f2.to_multiset(),
    ensures
        project_keys(f1, root, kinds).to_multiset() == project_keys(f2, root, kinds).to_multiset(),
    decreases f1.len(),
{
    broadcast use vstd::seq_lib::group_to_multiset_ensures, vstd::multiset::group_multiset_axioms;

    if f1.len() == 0 {
        assert(f1.to_multiset().len() == 0);
        assert(f2.len() == 0);
        assert(f1 =~= f2);
    } else {
        let x = f1.last();
        let g1 = f1.drop_last();
        assert(f1 =~= g1.push(x));
        assert(f2.to_multiset().count(x) > 0);
        assert(f2.contains(x));
        let j = choose|j: int| 0 <= j < f2.len() && f2[j] == x;
        let g2 = f2.remove(j);
        assert(g2.to_multiset() =~= f2.to_multiset().remove(x));
        assert(g1.to_multiset() =~= f1.to_multiset().remove(x));
        lemma_imported_keys_permutation(g1, g2, root, kinds);
        let s0 = f2.subrange(0, j);
        let s2 = f2.subrange(j + 1, f2.len() as int);
        let one = seq![x];
        assert(f2 =~= s0 + one + s2);
        assert(g2 =~= s0 + s2);
        lemma_project_keys_concat(s0 + one, s2, root, kinds);
        lemma_project_keys_concat(s0, one, root, kinds);
        lemma_project_keys_concat(s0, s2, root, kinds);
        assert(one.drop_last() =~= Seq::<SourceFile>::empty());
        let k = file_keys(x.statements@, x.path@, root, kinds);
        assert(one.last() == x);
        assert(project_keys(one.drop_last(), root, kinds) =~= Seq::<Seq<char>>::empty());
        assert(project_keys(one, root, kinds) == project_keys(one.drop_last(), root, kinds) + k);
        assert(project_keys(one, root, kinds) =~= k);
        vstd::seq_lib::lemma_multiset_commutative(project_keys(s0, root, kinds) + k, project_keys(s2, root, kinds));
        vstd::seq_lib::lemma_multiset_commutative(project_keys(s0, root, kinds), k);
        vstd::seq_lib::lemma_multiset_commutative(project_keys(s0, root, kinds), project_keys(s2, root, kinds));
        vstd::seq_lib::lemma_multiset_commutative(project_keys(g1, root, kinds), k);
        assert(project_keys(f1, root, kinds) == project_keys(g1, root, kinds) + k);
        assert(project_keys(f1, root, kinds).to_multiset() =~= project_keys(f2, root, kinds).to_multiset());
    }
}

/// Appends `more` to `out`.
fn extend_texts(out: &mut Vec<String>, more: Vec<String>)
    ensures
        texts(final(out)@) == texts(old(out)@) + texts(more@),
{
    let ghost start = texts(out@);
    let mut i: usize = 0;
    while i < more.len()
        invariant
            i <= more@.len(),
            texts(out@) == start + texts(more@.subrange(0, i as int)),
        decreases more@.len() - i,
    {
        let ghost o = out@;
        let x = more[i].clone();
        out.push(x);
        assert(texts(out@) =~= texts(o).push(more@[i as int]@));
        assert(texts(more@.subrange(0, i + 1)) =~= texts(more@.subrange(0, i as int)).push(
            more@[i as int]@,
        ));
        assert(texts(out@) =~= start + texts(more@.subrange(0, i + 1)));
        i = i + 1;
    }
    assert(more@.subrange(0, more@.len() as int) =~= more@);
}

/// The imported set of a project: the key of every import that a statement
/// of one of `files` resolves to. A statement that names nothing adds none.
pub fn build_imported_set(files: &Vec<SourceFile>, root: &String, kinds: &PathKinds) -> (r: Vec<
    String,
>)
    requires
        kinds.wf(),
    ensures
        texts(r@) == project_keys(files@, root@, *kinds),
{
    let mut out: Vec<String> = Vec::new();
    let mut i: usize = 0;
    while i < files.len()
        invariant
            i <= files@.len(),
            kinds.wf(),
            texts(out@) == project_keys(files@.subrange(0, i as int), root@, *kinds),
        decreases files@.len() - i,
    {
        let f = &files[i];
        let mut j: usize = 0;
        let ghost before = texts(out@);
        while j < f.statements.len()
            invariant
                j <= f.statements@.len(),
                kinds.wf(),
                texts(out@) == before + file_keys(
                    f.statements@.subrange(0, j as int),
                    f.path@,
                    root@,
                    *kinds,
                ),
            decreases f.statements@.len() - j,
        {
            let ghost prev = texts(out@);
            match resolve_statement(&f.statements[j], &f.path, root, kinds) {
                Ok(v) => {
                    let keys = resolve_imports(v);
                    extend_texts(&mut out, keys);
                },
                Err(_) => {},
            }
            assert(f.statements@.subrange(0, j + 1).drop_last() =~= f.statements@.subrange(
                0,
                j as int,
            ));
            assert(texts(out@) =~= prev + statement_keys(
                f.statements@[j as int],
                f.path@,
                root@,
                *kinds,
            ));
            j = j + 1;
        }
        assert(f.statements@.subrange(0, f.statements@.len() as int) =~= f.statements@);
        assert(files@.subrange(0, i + 1).drop_last() =~= files@.subrange(0, i as int));
        assert(texts(out@) =~= project_keys(files@.subrange(0, i + 1), root@, *kinds));
        i = i + 1;
    }
    assert(files@.subrange(0, files@.len() as int) =~= files@);
    out
}

/// The dead files of a project: `files` are all its source files with their
/// statements, `candidates` the files of the scope asked about.
pub fn find_dead_files(
    files: &Vec<SourceFile>,
    candidates: &Vec<Candidate>,
    root: &String,
    kinds: &PathKinds,
) -> (r: Vec<String>)
    requires
        kinds.wf(),
    ensures
        strictly_sorted(texts(r@)),
        forall|s: Seq<char>|
            texts(r@).contains(s) <==> in_dead_report(
                candidates@,
                project_keys(files@, root@, *kinds),
                root@,
                s,
            ),
{
    let imported = build_imported_set(files, root, kinds);
    dead_files(candidates, &imported, root)
}

/// `p` names a package initializer file.
pub open spec fn is_init_path(p: Seq<char>) -> bool {
    p == init_file() || has_suffix(p, seq!['/'] + init_file())
}

/// A file is an entrypoint when it is a package initializer, or when its
/// text holds the idiom that runs it directly (`has_main_idiom`).
pub fn is_entrypoint(path: &String, has_main_idiom: bool) -> (r: bool)
    ensures
        r == (is_init_path(path@) || has_main_idiom),
{
    let name = "__init__.py";
    let tail = "/__init__.py";
    proof {
        reveal_strlit("__init__.py");
        reveal_strlit("/__init__.py");
    }
    assert(name@ =~= init_file());
    assert(tail@ =~= seq!['/'] + init_file());
    if has_main_idiom {
        return true;
    }
    if ends_with(path.as_str(), tail) {
        return true;
    }
    let exact = path.as_str().unicode_len() == 11 && ends_with(path.as_str(), name);
    if exact {
        assert(path@.subrange(0, 11) =~= path@);
    }
    proof {
        if path@ == init_file() {
            assert(path@.subrange(0, 11) =~= path@);
        }
    }
    exact
}

/// A file of the scope that is asked about, with whether it is an entrypoint.
pub struct Candidate {
    pub path: String,
    pub is_entrypoint: bool,
}

/// `c` is no entrypoint and its dotted name is not in `imported`.
pub open spec fn is_dead(c: Candidate, imported: Seq<Seq<char>>, root: Seq<char>) -> bool {
    !c.is_entrypoint && !imported.contains(dotted_of(c.path@, root))
}

/// `s` is the relative file of a dead candidate.
pub open spec fn in_dead_report(
    cands: Seq<Candidate>,
    imported: Seq<Seq<char>>,
    root: Seq<char>,
    s: Seq<char>,
) -> bool {
    exists|i: int|
        0 <= i < cands.len() && is_dead(cands[i], imported, root) && s == relative_file_of(
            dotted_of(cands[i].path@, root),
        )
}

/// A package initializer is never dead: a candidate whose entrypoint flag is
/// what `is_entrypoint` gives for its path is live when the path names an
/// initializer, whatever is imported and whatever its text holds.
pub proof fn lemma_initializer_live(
    c: Candidate,
    has_main_idiom: bool,
    imported: Seq<Seq<char>>,
    root: Seq<char>,
)
    requires
        c.is_entrypoint == (is_init_path(c.path@) || has_main_idiom),
        is_init_path(c.path@),
    ensures
        !is_dead(c, imported, root),
{
}

proof fn lemma_concat_contains(a: Seq<Seq<char>>, b: Seq<Seq<char>>, k: Seq<char>)
    ensures
        (a + b).contains(k) <==> (a.contains(k) || b.contains(k)),
{
    if (a + b).contains(k) {
        let i = choose|i: int| 0 <= i < (a + b).len() && (a + b)[i] == k;
        if i < a.len() {
            assert(a[i] == k);
        } else {
            assert(b[i - a.len()] == k);
        }
    }
    if a.contains(k) {
        let i = choose|i: int| 0 <= i < a.len() && a[i] == k;
        assert((a + b)[i] == k);
    }
    if b.contains(k) {
        let i = choose|i: int| 0 <= i < b.len() && b[i] == k;
        assert((a + b)[a.len() + i] == k);
    }
}

/// A key is in the imported set exactly when some file adds it.
pub proof fn lemma_project_keys_contains(
    files: Seq<SourceFile>,
    root: Seq<char>,
    kinds: PathKinds,
    k: Seq<char>,
)
    ensures
        project_keys(files, root, kinds).contains(k) <==> exists|i: int|
            0 <= i < files.len() && file_keys(files[i].statements@, files[i].path@, root, kinds).contains(k),
    decreases files.len(),
{
    if files.len() > 0 {
        let init = files.drop_last();
        lemma_project_keys_contains(init, root, kinds, k);
        lemma_concat_contains(
            project_keys(init, root, kinds),
            file_keys(files.last().statements@, files.last().path@, root, kinds),
            k,
        );
        if exists|i: int|
            0 <= i < init.len() && file_keys(init[i].statements@, init[i].path@, root, kinds).contains(k) {
            let i = choose|i: int|
                0 <= i < init.len() && file_keys(init[i].statements@, init[i].path@, root, kinds).contains(k);
            assert(files[i] == init[i]);
        }
        if exists|i: int|
            0 <= i < files.len() && file_keys(files[i].statements@, files[i].path@, root, kinds).contains(k) {
            let i = choose|i: int|
                0 <= i < files.len() && file_keys(files[i].statements@, files[i].path@, root, kinds).contains(k);
            if i < init.len() {
                assert(init[i] == files[i]);
            }
        }
    }
}

/// The report is determined by the tree alone: two runs whose files and
/// candidates come in any order, but are the same ones, over the same
/// filesystem, give the same sorted list of dead files.
pub proof fn lemma_report_deterministic(
    r1: Seq<Seq<char>>,
    r2: Seq<Seq<char>>,
    c1: Seq<Candidate>,
    c2: Seq<Candidate>,
    f1: Seq<SourceFile>,
    f2: Seq<SourceFile>,
    root: Seq<char>,
    kinds: PathKinds,
)
    requires
        forall|c: Candidate| c1.contains(c) <==> c2.contains(c),
        forall|f: SourceFile| f1.contains(f) <==> f2.contains(f),
        strictly_sorted(r1),
        strictly_sorted(r2),
        forall|s: Seq<char>|
            r1.contains(s) <==> in_dead_report(c1, project_keys(f1, root, kinds), root, s),
        forall|s: Seq<char>|
            r2.contains(s) <==> in_dead_report(c2, project_keys(f2, root, kinds), root, s),
    ensures
        r1 == r2,
{
    let i1 = project_keys(f1, root, kinds);
    let i2 = project_keys(f2, root, kinds);
    assert forall|k: Seq<char>| i1.contains(k) <==> i2.contains(k) by {
        lemma_project_keys_contains(f1, root, kinds, k);
        lemma_project_keys_contains(f2, root, kinds, k);
        if i1.contains(k) {
            let i = choose|i: int|
                0 <= i < f1.len() && file_keys(f1[i].statements@, f1[i].path@, root, kinds).contains(k);
            assert(f1.contains(f1[i]));
            let j = choose|j: int| 0 <= j < f2.len() && f2[j] == f1[i];
            assert(file_keys(f2[j].statements@, f2[j].path@, root, kinds).contains(k));
        }
        if i2.contains(k) {
            let i = choose|i: int|
                0 <= i < f2.len() && file_keys(f2[i].statements@, f2[i].path@, root, kinds).contains(k);
            assert(f2.contains(f2[i]));
            let j = choose|j: int| 0 <= j < f1.len() && f1[j] == f2[i];
            assert(file_keys(f1[j].statements@, f1[j].path@, root, kinds).contains(k));
        }
    }
    assert forall|s: Seq<char>| r1.contains(s) <==> r2.contains(s) by {
        if in_dead_report(c1, i1, root, s) {
            let i = choose|i: int|
                0 <= i < c1.len() && is_dead(c1[i], i1, root) && s == relative_file_of(
                    dotted_of(c1[i].path@, root),
                );
            assert(c1.contains(c1[i]));
            let j = choose|j: int| 0 <= j < c2.len() && c2[j] == c1[i];
            assert(is_dead(c2[j], i2, root));
        }
        if in_dead_report(c2, i2, root, s) {
            let i = choose|i: int|
                0 <= i < c2.len() && is_dead(c2[i], i2, root) && s == relative_file_of(
                    dotted_of(c2[i].path@, root),
                );
            assert(c2.contains(c2[i]));
            let j = choose|j: int| 0 <= j < c1.len() && c1[j] == c2[i];
            assert(is_dead(c1[j], i1, root));
        }
    }
    lemma_sorted_unique(r1, r2);
}

/// The files of `candidates` that are not entrypoints and whose dotted name
/// is not in `imported`, as paths relative to `root`: sorted, each once.
pub fn dead_files(candidates: &Vec<Candidate>, imported: &Vec<String>, root: &String) -> (r: Vec<
    String,
>)
    ensures
        strictly_sorted(texts(r@)),
        forall|s: Seq<char>|
            texts(r@).contains(s) <==> in_dead_report(candidates@, texts(imported@), root@, s),
{
    let set = sorted_set(imported);
    let mut out: Vec<String> = Vec::new();
    let mut i: usize = 0;
    while i < candidates.len()
        invariant
            i <= candidates@.len(),
            strictly_sorted(texts(set@)),
            forall|t: Seq<char>| texts(set@).contains(t) <==> texts(imported@).contains(t),
            strictly_sorted(texts(out@)),
            forall|s: Seq<char>|
                texts(out@).contains(s) <==> in_dead_report(
                    candidates@.subrange(0, i as int),
                    texts(imported@),
                    root@,
                    s,
                ),
        decreases candidates@.len() - i,
    {
        let c = &candidates[i];
        let ghost before = texts(out@);
        let ghost pre = candidates@.subrange(0, i as int);
        let ghost cur = candidates@.subrange(0, i + 1);
        let d = to_dotted(c.path.as_str(), root.as_str());
        let dead = !c.is_entrypoint && !contains_sorted(&set, &d);
        let ghost rel = relative_file_of(d@);
        if dead {
            let f = relative_file(d.as_str());
            insert_sorted(&mut out, f);
        }
        assert forall|s: Seq<char>|
            texts(out@).contains(s) <==> in_dead_report(cur, texts(imported@), root@, s) by {
            if in_dead_report(cur, texts(imported@), root@, s) {
                let j = choose|j: int|
                    0 <= j < cur.len() && is_dead(cur[j], texts(imported@), root@) && s
                        == relative_file_of(dotted_of(cur[j].path@, root@));
                if j < i {
                    assert(pre[j] == cur[j]);
                    assert(in_dead_report(pre, texts(imported@), root@, s));
                }
            }
            if before.contains(s) {
                let j = choose|j: int|
                    0 <= j < pre.len() && is_dead(pre[j], texts(imported@), root@) && s
                        == relative_file_of(dotted_of(pre[j].path@, root@));
                assert(cur[j] == pre[j]);
            }
            if dead && s == rel {
                assert(cur[i as int] == *c);
            }
        }
        i = i + 1;
    }
    assert(candidates@.subrange(0, candidates@.len() as int) =~= candidates@);
    out
}

} // verus!
