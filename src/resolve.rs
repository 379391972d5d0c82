//! Turns one import statement, with the file it stands in, into the modules
//! and packages of the project that it names.
use crate::paths::{
    ascend, dir_prefix, dotted_of, ext, has_prefix, join, join_path, last_index_of, parent, parent_of,
    replace_char, starts_with, slashed, to_dotted,
};
use crate::order::{contains_sorted, sorted_set, strictly_sorted};
use vstd::prelude::*;

verus! {

/// The text values of a sequence of strings.
pub open spec fn texts(v: Seq<String>) -> Seq<Seq<char>> {
    v.map_values(|s: String| s@)
}

/// Every directory of `ds` strictly below `root` has a parent that is
/// `root` or again a directory of `ds`.
pub open spec fn parent_closed(root: Seq<char>, ds: Seq<Seq<char>>) -> bool {
    forall|d: Seq<char>|
        #![trigger ds.contains(d)]
        ds.contains(d) && d != root && has_prefix(d, dir_prefix(root)) ==> parent_of(d) is Some
            && (parent_of(d)->0 == root || ds.contains(parent_of(d)->0))
}

/// What the filesystem holds under the project root, as absolute paths:
/// which paths are directories and which are regular files. Every
/// module-versus-package decision is read from here. Both lists are kept
/// strictly sorted, so that a lookup is a bisection, and a directory below
/// the root lies in a directory.
pub struct PathKinds {
    root: String,
    dirs: Vec<String>,
    files: Vec<String>,
}

impl PathKinds {
    pub closed spec fn root(&self) -> Seq<char> {
        self.root@
    }

    pub closed spec fn has_dir(&self, p: Seq<char>) -> bool {
        texts(self.dirs@).contains(p)
    }

    pub closed spec fn has_file(&self, p: Seq<char>) -> bool {
        texts(self.files@).contains(p)
    }

    /// Both lists are strictly sorted, and the directories are closed under
    /// parents below the root.
    pub closed spec fn wf(&self) -> bool {
        &&& strictly_sorted(texts(self.dirs@))
        &&& strictly_sorted(texts(self.files@))
        &&& parent_closed(self.root@, texts(self.dirs@))
    }

    /// A directory of a well-formed snapshot strictly below its root lies in
    /// the root or in another of its directories.
    pub proof fn lemma_parent_is_dir(&self, d: Seq<char>)
        requires
            self.wf(),
            self.has_dir(d),
            d != self.root(),
            has_prefix(d, dir_prefix(self.root())),
        ensures
            parent_of(d) is Some,
            parent_of(d)->0 == self.root() || self.has_dir(parent_of(d)->0),
    {
    }

    /// The snapshot under `root` in which exactly `dirs` are directories and
    /// exactly `files` are regular files; `None` when some directory below
    /// `root` has a parent that is neither `root` nor in `dirs`.
    pub fn new(root: &String, dirs: &Vec<String>, files: &Vec<String>) -> (r: Option<PathKinds>)
        ensures
            r is Some <==> parent_closed(root@, texts(dirs@)),
            r matches Some(k) ==> {
                &&& k.wf()
                &&& k.root() == root@
                &&& forall|p: Seq<char>| k.has_dir(p) <==> texts(dirs@).contains(p)
                &&& forall|p: Seq<char>| k.has_file(p) <==> texts(files@).contains(p)
            },
    {
        let ds = sorted_set(dirs);
        let empty = "";
        proof {
            reveal_strlit("");
        }
        let pre = join(root.as_str(), empty);
        assert(pre@ =~= dir_prefix(root@));
        let mut i: usize = 0;
        while i < ds.len()
            invariant
                i <= ds@.len(),
                strictly_sorted(texts(ds@)),
                pre@ == dir_prefix(root@),
                forall|t: Seq<char>| texts(ds@).contains(t) <==> texts(dirs@).contains(t),
                forall|k: int|
                    0 <= k < i ==> {
                        let d = #[trigger] texts(ds@)[k];
                        d != root@ && has_prefix(d, dir_prefix(root@)) ==> parent_of(d) is Some
                            && (parent_of(d)->0 == root@ || texts(ds@).contains(parent_of(d)->0))
                    },
            decreases ds@.len() - i,
        {
            let d = &ds[i];
            assert(texts(ds@)[i as int] == d@);
            if *d != *root && starts_with(d.as_str(), pre.as_str()) {
                match parent(d.as_str()) {
                    None => {
                        assert(texts(dirs@).contains(d@));
                        return None;
                    },
                    Some(p) => {
                        if p != *root && !contains_sorted(&ds, &p) {
                            assert(texts(dirs@).contains(d@));
                            return None;
                        }
                    },
                }
            }
            i = i + 1;
        }
        assert forall|d: Seq<char>|
            #![trigger texts(dirs@).contains(d)]
            texts(dirs@).contains(d) && d != root@ && has_prefix(d, dir_prefix(root@))
                implies parent_of(d) is Some && (parent_of(d)->0 == root@ || texts(dirs@).contains(
                parent_of(d)->0,
            )) by {
            assert(texts(ds@).contains(d));
            let k = choose|k: int| 0 <= k < texts(ds@).len() && texts(ds@)[k] == d;
            if parent_of(d) is Some && parent_of(d)->0 != root@ {
                assert(texts(ds@).contains(parent_of(d)->0));
            }
        }
        Some(PathKinds { root: root.clone(), dirs: ds, files: sorted_set(files) })
    }

    /// Whether `p` is a directory.
    pub fn is_dir(&self, p: &String) -> (r: bool)
        requires
            self.wf(),
        ensures
            r == self.has_dir(p@),
    {
        contains_sorted(&self.dirs, p)
    }

    /// Whether `p` is a regular file.
    pub fn is_file(&self, p: &String) -> (r: bool)
        requires
            self.wf(),
        ensures
            r == self.has_file(p@),
    {
        contains_sorted(&self.files, p)
    }
}

/// One statement of a source file that imports.
pub enum RawImport {
    /// `import a.b, c`: dotted names, always read from the project root.
    Import { names: Vec<String> },
    /// `from <dots><module> import x, y`: `level` counts the leading dots.
    ImportFrom { module: Option<String>, names: Vec<String>, level: Option<u32> },
}

/// A resolved import: a module, or a package, by its dotted name.
#[derive(Debug)]
pub enum Import {
    Module(String),
    Package(String),
}

/// An import statement that names nothing.
#[derive(Debug, Clone, Copy, PartialEq, Eq, Structural)]
pub enum ResolveError {
    /// A relative import climbs above the filesystem root.
    InvalidRelativeImport,
}

impl View for Import {
    /// Whether it is a package, and its dotted name.
    type V = (bool, Seq<char>);

    open spec fn view(&self) -> (bool, Seq<char>) {
        match self {
            Import::Module(s) => (false, s@),
            Import::Package(s) => (true, s@),
        }
    }
}

impl PartialEq for Import {
    fn eq(&self, o: &Import) -> (r: bool)
        ensures
            r == (self@ == o@),
    {
        match self {
            Import::Module(a) => match o {
                Import::Module(b) => a.eq(b),
                Import::Package(_) => false,
            },
            Import::Package(a) => match o {
                Import::Package(b) => a.eq(b),
                Import::Module(_) => false,
            },
        }
    }
}

impl vstd::std_specs::cmp::PartialEqSpecImpl for Import {
    open spec fn obeys_eq_spec() -> bool {
        true
    }

    open spec fn eq_spec(&self, o: &Import) -> bool {
        self@ == o@
    }
}

pub open spec fn import_views(v: Seq<Import>) -> Seq<(bool, Seq<char>)> {
    v.map_values(|i: Import| i@)
}

/// A plain `import name`: a package when `root/name` (dots read as
/// separators) is a directory, else a module; named by `name` itself.
pub open spec fn plain_import(name: Seq<char>, root: Seq<char>, kinds: PathKinds) -> (
    bool,
    Seq<char>,
) {
    (kinds.has_dir(join_path(root, slashed(name))), name)
}

/// The import of the path `p`: a package when `p` is a directory, else a
/// module; named by the dotted form of `p`.
pub open spec fn path_import(p: Seq<char>, root: Seq<char>, kinds: PathKinds) -> (
    bool,
    Seq<char>,
) {
    (kinds.has_dir(p), dotted_of(p, root))
}

/// The directory that a `from` import starts from: the root for an absolute
/// one, else the importing file's path with its last `level` parts taken off.
pub open spec fn base_dir(level: Option<u32>, file: Seq<char>, root: Seq<char>) -> Option<
    Seq<char>,
> {
    if level is Some && level->0 > 0 {
        ascend(file, level->0 as nat)
    } else {
        Some(root)
    }
}

/// What `from <level dots><module> import <names>` in `file` resolves to;
/// `None` where the relative import climbs above the filesystem root.
pub open spec fn from_import_spec(
    module: Option<Seq<char>>,
    names: Seq<Seq<char>>,
    level: Option<u32>,
    file: Seq<char>,
    root: Seq<char>,
    kinds: PathKinds,
) -> Option<Seq<(bool, Seq<char>)>> {
    match base_dir(level, file, root) {
        None => None,
        Some(base) => {
            let joined = join_path(base, slashed(module->0));
            if module is Some && !kinds.has_dir(joined) && kinds.has_file(joined + ext()) {
                Some(seq![(false, dotted_of(joined, root))])
            } else {
                let anchor = if module is Some {
                    joined
                } else {
                    base
                };
                Some(names.map_values(|n: Seq<char>| path_import(join_path(anchor, n), root, kinds)))
            }
        },
    }
}

/// What one statement in `file` resolves to.
pub open spec fn resolve_spec(stmt: RawImport, file: Seq<char>, root: Seq<char>, kinds: PathKinds) -> Option<
    Seq<(bool, Seq<char>)>,
> {
    match stmt {
        RawImport::Import { names } => Some(
            texts(names@).map_values(|n: Seq<char>| plain_import(n, root, kinds)),
        ),
        RawImport::ImportFrom { module, names, level } => from_import_spec(
            match module {
                Some(m) => Some(m@),
                None => None,
            },
            texts(names@),
            level,
            file,
            root,
            kinds,
        ),
    }
}

proof fn lemma_ascend_none(p: Seq<char>, a: nat, b: nat)
    requires
        ascend(p, a) is None,
        a <= b,
    ensures
        ascend(p, b) is None,
    decreases b - a,
{
    if a < b {
        lemma_ascend_none(p, a, (b - 1) as nat);
    }
}

proof fn lemma_last_index_tail(s: Seq<char>, t: Seq<char>, c: char)
    requires
        forall|i: int| 0 <= i < t.len() ==> t[i] != c,
    ensures
        last_index_of(s + t, c) == last_index_of(s, c),
    decreases t.len(),
{
    if t.len() > 0 {
        assert((s + t).drop_last() =~= s + t.drop_last());
        lemma_last_index_tail(s, t.drop_last(), c);
    } else {
        assert(s + t =~= s);
    }
}

/// A relative import of level 1 in the file `dir/name` starts from `dir`, the
/// file's own directory; one of level 2 starts from the parent of `dir`.
pub proof fn lemma_relative_levels(dir: Seq<char>, name: Seq<char>, root: Seq<char>)
    requires
        dir.len() > 0,
        forall|i: int| 0 <= i < name.len() ==> name[i] != '/',
    ensures
        base_dir(Some(1u32), dir + seq!['/'] + name, root) == Some(dir),
        base_dir(Some(2u32), dir + seq!['/'] + name, root) == parent_of(dir),
{
    let file = dir + seq!['/'] + name;
    lemma_last_index_tail(dir + seq!['/'], name, '/');
    assert((dir + seq!['/']).drop_last() =~= dir);
    assert(last_index_of(dir + seq!['/'], '/') == dir.len());
    assert(file.subrange(0, dir.len() as int) =~= dir);
    assert(parent_of(file) == Some(dir));
    assert(ascend(file, 0) == Some(file));
    assert(ascend(file, 1) == Some(dir));
    assert(ascend(file, 2) == parent_of(dir));
}

/// When `<base>/<module>` is a source file and no directory of that name
/// exists, `from <module> import ...` names that one module, whatever names
/// follow.
pub proof fn lemma_from_module_short_circuit(
    module: Seq<char>,
    names: Seq<Seq<char>>,
    level: Option<u32>,
    file: Seq<char>,
    root: Seq<char>,
    kinds: PathKinds,
)
    requires
        base_dir(level, file, root) is Some,
        !kinds.has_dir(join_path(base_dir(level, file, root)->0, slashed(module))),
        kinds.has_file(join_path(base_dir(level, file, root)->0, slashed(module)) + ext()),
    ensures
        from_import_spec(Some(module), names, level, file, root, kinds) == Some(
            seq![(false, dotted_of(join_path(base_dir(level, file, root)->0, slashed(module)), root))],
        ),
{
}

/// The path that `from <level dots><module> import ...` in `file` names.
pub open spec fn from_source_path(level: Option<u32>, file: Seq<char>, root: Seq<char>, module: Seq<char>) -> Seq<
    char,
> {
    join_path(base_dir(level, file, root)->0, slashed(module))
}

proof fn lemma_parent_of_join(dir: Seq<char>, name: Seq<char>)
    requires
        dir.len() > 0,
        dir.last() != '/',
        forall|i: int| 0 <= i < name.len() ==> name[i] != '/',
    ensures
        parent_of(join_path(dir, name)) == Some(dir),
{
    let q = join_path(dir, name);
    assert(q =~= (dir + seq!['/']) + name);
    lemma_last_index_tail(dir + seq!['/'], name, '/');
    assert((dir + seq!['/']).drop_last() =~= dir);
    assert(q.subrange(0, dir.len() as int) =~= dir);
}

/// When the path of `from <module>` lies strictly below the root of a
/// well-formed snapshot and is neither a directory nor a source file, no
/// path below it is a directory either, so every listed name is a module.
pub proof fn lemma_unknown_module_names_are_modules(
    module: Seq<char>,
    names: Seq<Seq<char>>,
    level: Option<u32>,
    file: Seq<char>,
    root: Seq<char>,
    kinds: PathKinds,
)
    requires
        kinds.wf(),
        kinds.root() == root,
        base_dir(level, file, root) is Some,
        !kinds.has_dir(from_source_path(level, file, root, module)),
        !kinds.has_file(from_source_path(level, file, root, module) + ext()),
        from_source_path(level, file, root, module) != root,
        has_prefix(from_source_path(level, file, root, module), dir_prefix(root)),
        from_source_path(level, file, root, module).last() != '/',
        forall|i: int, j: int| 0 <= i < names.len() && 0 <= j < names[i].len() ==> names[i][j] != '/',
    ensures
        from_import_spec(Some(module), names, level, file, root, kinds) == Some(
            names.map_values(
                |n: Seq<char>| (false, dotted_of(join_path(from_source_path(level, file, root, module), n), root)),
            ),
        ),
{
    let j = from_source_path(level, file, root, module);
    let pre = dir_prefix(root);
    assert(j.len() >= pre.len());
    assert(pre.len() >= root.len());
    assert(j.len() > 0) by {
        if j.len() == 0 {
            assert(pre.len() == 0);
            assert(root.len() == 0);
            assert(pre =~= seq!['/']);
        }
    }
    let got = from_import_spec(Some(module), names, level, file, root, kinds)->0;
    let want = names.map_values(|n: Seq<char>| (false, dotted_of(join_path(j, n), root)));
    assert forall|i: int| 0 <= i < names.len() implies got[i] == want[i] by {
        let q = join_path(j, names[i]);
        assert(q.len() > j.len());
        assert(q.subrange(0, pre.len() as int) =~= j.subrange(0, pre.len() as int));
        if kinds.has_dir(q) {
            lemma_parent_of_join(j, names[i]);
            kinds.lemma_parent_is_dir(q);
        }
    }
    assert(got =~= want);
}

/// The import of the path `p`, as `path_import` states it.
fn import_of_path(p: String, root: &String, kinds: &PathKinds) -> (r: Import)
    requires
        kinds.wf(),
    ensures
        r@ == path_import(p@, root@, *kinds),
{
    let d = to_dotted(p.as_str(), root.as_str());
    if kinds.is_dir(&p) {
        Import::Package(d)
    } else {
        Import::Module(d)
    }
}

impl Import {
    /// Resolves `import <names>`: each name is read from the project root.
    pub fn from_import(names: &Vec<String>, root: &String, kinds: &PathKinds) -> (r: Vec<Import>)
        requires
            kinds.wf(),
        ensures
            import_views(r@) == texts(names@).map_values(
                |n: Seq<char>| plain_import(n, root@, *kinds),
            ),
    {
        let sep = "/";
        proof {
            reveal_strlit("/");
        }
        let mut out: Vec<Import> = Vec::new();
        let mut i: usize = 0;
        while i < names.len()
            invariant
                i <= names@.len(),
                kinds.wf(),
                sep@ == seq!['/'],
                out@.len() == i,
                forall|k: int| 0 <= k < i ==> out@[k]@ == plain_import(names@[k]@, root@, *kinds),
            decreases names@.len() - i,
        {
            let name = &names[i];
            let full = join(root.as_str(), replace_char(name.as_str(), '.', sep).as_str());
            let imp = if kinds.is_dir(&full) {
                Import::Package(name.clone())
            } else {
                Import::Module(name.clone())
            };
            out.push(imp);
            i = i + 1;
        }
        assert(import_views(out@) =~= texts(names@).map_values(
            |n: Seq<char>| plain_import(n, root@, *kinds),
        ));
        out
    }

    /// Resolves `from <level dots><module> import <names>` that stands in
    /// `current_file`. When `<base>/<module>` is a source file and not a
    /// directory, the names are members of that one module; else each name is joined onto
    /// `<base>/<module>` (or onto the base when there is no module) and is a
    /// package or a module by what that path is.
    pub fn from_import_from(
        module: &Option<String>,
        names: &Vec<String>,
        level: Option<u32>,
        current_file: &String,
        root: &String,
        kinds: &PathKinds,
    ) -> (r: Result<Vec<Import>, ResolveError>)
        requires
            kinds.wf(),
        ensures
            ({
                let spec = from_import_spec(
                    match module {
                        Some(m) => Some(m@),
                        None => None,
                    },
                    texts(names@),
                    level,
                    current_file@,
                    root@,
                    *kinds,
                );
                &&& r is Err <==> spec is None
                &&& r matches Ok(v) ==> spec == Some(import_views(v@))
            }),
    {
        let ghost mspec = match module {
            Some(m) => Some(m@),
            None => None,
        };
        let base: String = match level {
            Some(n) if n > 0 => {
                let mut cur = current_file.clone();
                let mut j: u32 = 0;
                while j < n
                    invariant
                        j <= n,
                        level == Some(n),
                        ascend(current_file@, j as nat) == Some(cur@),
                    decreases n - j,
                {
                    match parent(cur.as_str()) {
                        Some(q) => {
                            cur = q;
                        },
                        None => {
                            assert(ascend(current_file@, (j + 1) as nat) == parent_of(cur@));
                            assert(level->0 == n);
                            proof {
                                lemma_ascend_none(current_file@, (j + 1) as nat, n as nat);
                            }
                            return Err(ResolveError::InvalidRelativeImport);
                        },
                    }
                    j = j + 1;
                }
                cur
            },
            _ => root.clone(),
        };
        assert(base_dir(level, current_file@, root@) == Some(base@));
        let sep = "/";
        let suffix = ".py";
        proof {
            reveal_strlit("/");
            reveal_strlit(".py");
        }
        let anchor: String = match module {
            Some(m) => {
                let joined = join(base.as_str(), replace_char(m.as_str(), '.', sep).as_str());
                let file = joined.clone().concat(suffix);
                assert(suffix@ =~= ext());
                if !kinds.is_dir(&joined) && kinds.is_file(&file) {
                    let d = to_dotted(joined.as_str(), root.as_str());
                    let out = vec![Import::Module(d)];
                    assert(import_views(out@) =~= seq![(false, dotted_of(joined@, root@))]);
                    return Ok(out);
                }
                joined
            },
            None => base,
        };
        let mut out: Vec<Import> = Vec::new();
        let mut i: usize = 0;
        while i < names.len()
            invariant
                i <= names@.len(),
                kinds.wf(),
                out@.len() == i,
                forall|k: int|
                    0 <= k < i ==> out@[k]@ == path_import(
                        join_path(anchor@, names@[k]@),
                        root@,
                        *kinds,
                    ),
            decreases names@.len() - i,
        {
            let p = join(anchor.as_str(), names[i].as_str());
            let imp = import_of_path(p, root, kinds);
            out.push(imp);
            i = i + 1;
        }
        assert(import_views(out@) =~= texts(names@).map_values(
            |n: Seq<char>| path_import(join_path(anchor@, n), root@, *kinds),
        ));
        Ok(out)
    }
}

/// Resolves one statement that stands in `current_file`.
pub fn resolve_statement(
    stmt: &RawImport,
    current_file: &String,
    root: &String,
    kinds: &PathKinds,
) -> (r: Result<Vec<Import>, ResolveError>)
    requires
        kinds.wf(),
    ensures
        r is Err <==> resolve_spec(*stmt, current_file@, root@, *kinds) is None,
        r matches Ok(v) ==> resolve_spec(*stmt, current_file@, root@, *kinds) == Some(
            import_views(v@),
        ),
{
    match stmt {
        RawImport::Import { names } => Ok(Import::from_import(names, root, kinds)),
        RawImport::ImportFrom { module, names, level } => Import::from_import_from(
            module,
            names,
            *level,
            current_file,
            root,
            kinds,
        ),
    }
}

} // verus!
