//! Project paths as text, and the codec between a path under the project
//! root and its dotted module name.
use vstd::prelude::*;
use vstd::string::*;

verus! {

/// The suffix of a source file.
pub open spec fn ext() -> Seq<char> {
    seq!['.', 'p', 'y']
}

/// `s` with every `from` replaced by `to`.
pub open spec fn swap_char(s: Seq<char>, from: char, to: char) -> Seq<char> {
    s.map_values(|c: char| if c == from { to } else { c })
}

pub open spec fn has_prefix(s: Seq<char>, p: Seq<char>) -> bool {
    p.len() <= s.len() && s.subrange(0, p.len() as int) == p
}

pub open spec fn has_suffix(s: Seq<char>, p: Seq<char>) -> bool {
    p.len() <= s.len() && s.subrange(s.len() - p.len(), s.len() as int) == p
}

/// The directory `dir` with one trailing separator.
pub open spec fn dir_prefix(dir: Seq<char>) -> Seq<char> {
    if dir.len() > 0 && dir.last() == '/' {
        dir
    } else {
        dir + seq!['/']
    }
}

/// `name` appended to the directory `base`, with one separator between them.
pub open spec fn join_path(base: Seq<char>, name: Seq<char>) -> Seq<char> {
    dir_prefix(base) + name
}

/// Index of the last `c` in `s`, or -1 when there is none.
pub open spec fn last_index_of(s: Seq<char>, c: char) -> int
    decreases s.len(),
{
    if s.len() == 0 {
        -1
    } else if s.last() == c {
        s.len() - 1
    } else {
        last_index_of(s.drop_last(), c)
    }
}

/// The directory that holds `p`; `None` for the empty path and for `/`.
pub open spec fn parent_of(p: Seq<char>) -> Option<Seq<char>> {
    let k = last_index_of(p, '/');
    if p.len() == 0 {
        None
    } else if k < 0 {
        Some(Seq::empty())
    } else if k == 0 {
        if p.len() == 1 {
            None
        } else {
            Some(seq!['/'])
        }
    } else {
        Some(p.subrange(0, k))
    }
}

/// `p` after taking the parent `n` times; `None` when it runs out of parents.
pub open spec fn ascend(p: Seq<char>, n: nat) -> Option<Seq<char>>
    decreases n,
{
    if n == 0 {
        Some(p)
    } else {
        match ascend(p, (n - 1) as nat) {
            Some(q) => parent_of(q),
            None => None,
        }
    }
}

/// `path` without the leading `root/`, when it has one.
pub open spec fn strip_root(path: Seq<char>, root: Seq<char>) -> Seq<char> {
    let pre = dir_prefix(root);
    if has_prefix(path, pre) {
        path.subrange(pre.len() as int, path.len() as int)
    } else {
        path
    }
}

/// `s` without the source-file suffix, when it has one.
pub open spec fn strip_ext(s: Seq<char>) -> Seq<char> {
    if has_suffix(s, ext()) {
        s.subrange(0, s.len() - ext().len())
    } else {
        s
    }
}

/// The dotted module name of `path` relative to `root`.
pub open spec fn dotted_of(path: Seq<char>, root: Seq<char>) -> Seq<char> {
    swap_char(strip_ext(strip_root(path, root)), '/', '.')
}

/// The source file under `root` named by `dotted`.
pub open spec fn file_of(dotted: Seq<char>, root: Seq<char>) -> Seq<char> {
    join_path(root, swap_char(dotted, '.', '/') + ext())
}

/// The source file named by `dotted`, relative to the project root.
pub open spec fn relative_file_of(dotted: Seq<char>) -> Seq<char> {
    swap_char(dotted, '.', '/') + ext()
}

/// A dotted name read as a path: each `.` becomes a separator.
pub open spec fn slashed(dotted: Seq<char>) -> Seq<char> {
    swap_char(dotted, '.', '/')
}

/// A relative path under the root, and its dotted name, map to each other one
/// to one: turning a source file `root/P` into its dotted name and back gives
/// `root/P` again, for every `P` that ends in the source suffix and holds no
/// other `.`.
pub proof fn lemma_path_dotted_round_trip(rel: Seq<char>, root: Seq<char>)
    requires
        has_suffix(rel, ext()),
        forall|i: int| 0 <= i < rel.len() - ext().len() ==> rel[i] != '.',
    ensures
        file_of(dotted_of(join_path(root, rel), root), root) == join_path(root, rel),
{
    let full = join_path(root, rel);
    let pre = dir_prefix(root);
    assert(full.subrange(0, pre.len() as int) =~= pre);
    assert(full.subrange(pre.len() as int, full.len() as int) =~= rel);
    let stem = rel.subrange(0, rel.len() - 3);
    assert(strip_root(full, root) == rel);
    assert(strip_ext(rel) == stem);
    assert(swap_char(swap_char(stem, '/', '.'), '.', '/') =~= stem);
    assert(rel =~= stem + ext());
    assert(file_of(swap_char(stem, '/', '.'), root) =~= pre + (stem + ext()));
}

/// The other way round: the dotted name of the file that a dotted name
/// `d` names is `d` again, when `d` holds no separator.
pub proof fn lemma_dotted_path_round_trip(d: Seq<char>, root: Seq<char>)
    requires
        forall|i: int| 0 <= i < d.len() ==> d[i] != '/',
    ensures
        dotted_of(file_of(d, root), root) == d,
{
    let pre = dir_prefix(root);
    let rel = swap_char(d, '.', '/') + ext();
    let full = file_of(d, root);
    assert(full =~= pre + rel);
    assert(full.subrange(0, pre.len() as int) =~= pre);
    assert(full.subrange(pre.len() as int, full.len() as int) =~= rel);
    assert(rel.subrange(rel.len() - 3, rel.len() as int) =~= ext());
    assert(rel.subrange(0, rel.len() - 3) =~= swap_char(d, '.', '/'));
    assert(swap_char(swap_char(d, '.', '/'), '/', '.') =~= d);
}

/// `s` with each `from` replaced by the one character of `to`.
pub fn replace_char(s: &str, from: char, to: &str) -> (r: String)
    requires
        to@.len() == 1,
    ensures
        r@ == swap_char(s@, from, to@[0]),
{
    let n = s.unicode_len();
    let mut out = String::new();
    let mut i: usize = 0;
    while i < n
        invariant
            n == s@.len(),
            i <= n,
            to@.len() == 1,
            out@ == swap_char(s@.subrange(0, i as int), from, to@[0]),
        decreases n - i,
    {
        let c = s.get_char(i);
        let ghost before = out@;
        if c == from {
            out.append(to);
        } else {
            out.append(s.substring_char(i, i + 1));
        }
        assert(swap_char(s@.subrange(0, i + 1), from, to@[0]) =~= before + swap_char(
            s@.subrange(i as int, i + 1),
            from,
            to@[0],
        ));
        i = i + 1;
    }
    assert(s@.subrange(0, n as int) =~= s@);
    out
}

/// Whether `s` begins with `p`.
pub fn starts_with(s: &str, p: &str) -> (r: bool)
    ensures
        r == has_prefix(s@, p@),
{
    let n = s.unicode_len();
    let m = p.unicode_len();
    if m > n {
        return false;
    }
    let mut i: usize = 0;
    while i < m
        invariant
            n == s@.len(),
            m == p@.len(),
            m <= n,
            i <= m,
            s@.subrange(0, i as int) == p@.subrange(0, i as int),
        decreases m - i,
    {
        if s.get_char(i) != p.get_char(i) {
            assert(s@.subrange(0, m as int)[i as int] != p@[i as int]);
            return false;
        }
        assert(s@.subrange(0, i + 1) =~= s@.subrange(0, i as int).push(s@[i as int]));
        assert(p@.subrange(0, i + 1) =~= p@.subrange(0, i as int).push(p@[i as int]));
        i = i + 1;
    }
    assert(p@.subrange(0, m as int) =~= p@);
    true
}

/// Whether `s` ends with `p`.
pub fn ends_with(s: &str, p: &str) -> (r: bool)
    ensures
        r == has_suffix(s@, p@),
{
    let n = s.unicode_len();
    let m = p.unicode_len();
    if m > n {
        return false;
    }
    let off: usize = n - m;
    let mut i: usize = 0;
    while i < m
        invariant
            n == s@.len(),
            m == p@.len(),
            off == n - m,
            i <= m,
            s@.subrange(off as int, off + i) == p@.subrange(0, i as int),
        decreases m - i,
    {
        if s.get_char(off + i) != p.get_char(i) {
            assert(s@.subrange(off as int, n as int)[i as int] != p@[i as int]);
            return false;
        }
        assert(s@.subrange(off as int, off + i + 1) =~= s@.subrange(off as int, off + i).push(
            s@[off + i],
        ));
        assert(p@.subrange(0, i + 1) =~= p@.subrange(0, i as int).push(p@[i as int]));
        i = i + 1;
    }
    assert(p@.subrange(0, m as int) =~= p@);
    true
}

/// `name` appended to the directory `base`.
pub fn join(base: &str, name: &str) -> (r: String)
    ensures
        r@ == join_path(base@, name@),
{
    let n = base.unicode_len();
    let mut out = String::from_str(base);
    if n > 0 && base.get_char(n - 1) == '/' {
        out.append(name);
    } else {
        let sep = "/";
        proof {
            reveal_strlit("/");
        }
        out.append(sep);
        out.append(name);
    }
    out
}

/// The directory that holds `p`, as `Path::parent` gives it for a normalised
/// path.
pub fn parent(p: &str) -> (r: Option<String>)
    ensures
        r matches Some(q) ==> parent_of(p@) == Some(q@),
        r is None ==> parent_of(p@) is None,
{
    let n = p.unicode_len();
    let mut found = false;
    let mut k: usize = 0;
    let mut i: usize = 0;
    while i < n
        invariant
            n == p@.len(),
            i <= n,
            found ==> k < i && last_index_of(p@.subrange(0, i as int), '/') == k,
            !found ==> last_index_of(p@.subrange(0, i as int), '/') == -1,
        decreases n - i,
    {
        assert(p@.subrange(0, i + 1).drop_last() =~= p@.subrange(0, i as int));
        if p.get_char(i) == '/' {
            found = true;
            k = i;
        }
        i = i + 1;
    }
    assert(p@.subrange(0, n as int) =~= p@);
    if n == 0 {
        None
    } else if !found {
        Some(String::new())
    } else if k == 0 {
        if n == 1 {
            None
        } else {
            let root = "/";
            proof {
                reveal_strlit("/");
            }
            Some(String::from_str(root))
        }
    } else {
        Some(String::from_str(p.substring_char(0, k)))
    }
}

/// The dotted module name of `path` relative to `root`: the leading `root/`
/// and the source suffix are taken off, and each separator becomes `.`.
pub fn to_dotted(path: &str, root: &str) -> (r: String)
    ensures
        r@ == dotted_of(path@, root@),
{
    let sep = "/";
    let suffix = ".py";
    let dot = ".";
    proof {
        reveal_strlit("/");
        reveal_strlit(".py");
        reveal_strlit(".");
    }
    let pre = if ends_with(root, sep) {
        assert(root@.subrange(root@.len() - 1, root@.len() as int)[0] == root@.last());
        String::from_str(root)
    } else {
        proof {
            if root@.len() > 0 && root@.last() == '/' {
                assert(root@.subrange(root@.len() - 1, root@.len() as int) =~= sep@);
            }
        }
        String::from_str(root).concat(sep)
    };
    assert(pre@ == dir_prefix(root@));
    let n = path.unicode_len();
    let rel: &str = if starts_with(path, pre.as_str()) {
        path.substring_char(pre.as_str().unicode_len(), n)
    } else {
        path
    };
    let m = rel.unicode_len();
    assert(rel@ == strip_root(path@, root@));
    assert(suffix@ =~= ext());
    let stem: &str = if ends_with(rel, suffix) {
        rel.substring_char(0, m - 3)
    } else {
        rel
    };
    assert(stem@ == strip_ext(rel@));
    replace_char(stem, '/', dot)
}

/// The source file under `root` that the dotted name `dotted` names.
pub fn to_path(dotted: &str, root: &str) -> (r: String)
    ensures
        r@ == file_of(dotted@, root@),
{
    let sep = "/";
    proof {
        reveal_strlit("/");
    }
    let rel = relative_file(dotted);
    join(root, rel.as_str())
}

/// The source file that the dotted name `dotted` names, relative to the
/// project root.
pub fn relative_file(dotted: &str) -> (r: String)
    ensures
        r@ == relative_file_of(dotted@),
{
    let sep = "/";
    let suffix = ".py";
    proof {
        reveal_strlit("/");
        reveal_strlit(".py");
    }
    replace_char(dotted, '.', sep).concat(suffix)
}

} // verus!
