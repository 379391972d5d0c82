//! Finding the idiom that runs a source file directly, line by line, with
//! grep's regular expressions.
use crate::resolve::texts;
use grep::matcher::Matcher;
use grep::regex::RegexMatcher;
use vstd::prelude::*;
use vstd::string::*;

verus! {

#[verifier::external_type_specification]
#[verifier::external_body]
pub struct ExRegexMatcher(RegexMatcher);

/// Whether grep compiles the regular expression `pattern` under its default
/// configuration.
pub uninterp spec fn regex_compiles(pattern: Seq<char>) -> bool;

/// Whether the regular expression `pattern` matches somewhere in `line`.
pub uninterp spec fn regex_finds(pattern: Seq<char>, line: Seq<char>) -> bool;

/// A regular expression compiled by grep, with the pattern it came from.
pub(crate) struct LineMatcher {
    pattern: String,
    matcher: RegexMatcher,
}

impl LineMatcher {
    /// The pattern this matcher was compiled from.
    pub(crate) closed spec fn pattern(&self) -> Seq<char> {
        self.pattern@
    }

    /// Relies on grep_regex::RegexMatcher::new: compiles `pattern` with the
    /// default configuration, or fails on a pattern it cannot compile.
    #[verifier::external_body]
    pub(crate) fn new(pattern: &str) -> (r: Option<LineMatcher>)
        ensures
            r is Some <==> regex_compiles(pattern@),
            r matches Some(m) ==> m.pattern() == pattern@,
    {
        match RegexMatcher::new(pattern) {
            Ok(matcher) => Some(LineMatcher { pattern: pattern.to_string(), matcher }),
            Err(_) => None,
        }
    }

    /// Relies on grep_matcher::Matcher::is_match for RegexMatcher: whether
    /// the compiled pattern matches somewhere in the bytes of `line`. Its
    /// error type there is `NoError`, which is never returned.
    #[verifier::external_body]
    pub(crate) fn finds(&self, line: &str) -> (r: bool)
        ensures
            r == regex_finds(self.pattern(), line@),
    {
        self.matcher.is_match(line.as_bytes()).unwrap_or(false)
    }
}

/// The lines of `s`: the pieces between `\n` characters, the last one
/// included even when empty.
pub open spec fn lines_of(s: Seq<char>) -> Seq<Seq<char>>
    decreases s.len(),
{
    if s.len() == 0 {
        seq![Seq::empty()]
    } else {
        let p = lines_of(s.drop_last());
        if s.last() == '\n' {
            p.push(Seq::empty())
        } else {
            p.update(p.len() - 1, p.last().push(s.last()))
        }
    }
}

proof fn lemma_lines_nonempty(s: Seq<char>)
    ensures
        lines_of(s).len() >= 1,
    decreases s.len(),
{
    if s.len() > 0 {
        lemma_lines_nonempty(s.drop_last());
    }
}

/// The lines of `text`, as `lines_of` states them.
pub fn split_lines(text: &str) -> (r: Vec<String>)
    ensures
        texts(r@) == lines_of(text@),
{
    let n = text.unicode_len();
    let mut out: Vec<String> = Vec::new();
    let mut cur = String::new();
    let mut i: usize = 0;
    assert(text@.subrange(0, 0) =~= Seq::<char>::empty());
    while i < n
        invariant
            n == text@.len(),
            i <= n,
            texts(out@).push(cur@) == lines_of(text@.subrange(0, i as int)),
        decreases n - i,
    {
        let ghost pre = text@.subrange(0, i as int);
        let ghost next = text@.subrange(0, i + 1);
        assert(next.drop_last() =~= pre);
        proof {
            lemma_lines_nonempty(pre);
        }
        let c = text.get_char(i);
        if c == '\n' {
            let done = cur;
            let ghost o = out@;
            out.push(done);
            cur = String::new();
            assert(texts(out@) =~= texts(o).push(done@));
            assert(texts(out@).push(cur@) =~= lines_of(next));
        } else {
            let ghost before = cur@;
            cur.append(text.substring_char(i, i + 1));
            assert(cur@ =~= before.push(c));
            assert(texts(out@).push(cur@) =~= lines_of(next));
        }
        i = i + 1;
    }
    assert(text@.subrange(0, n as int) =~= text@);
    let ghost o = out@;
    out.push(cur);
    assert(texts(out@) =~= texts(o).push(cur@));
    out
}

/// The idiom that runs a file directly, as a regular expression:
/// `if\s+__name__\s*==\s*["']__main__["']:`.
pub open spec fn main_idiom_text() -> Seq<char> {
    seq![
        'i', 'f', '\\', 's', '+', '_', '_', 'n', 'a', 'm', 'e', '_', '_', '\\', 's', '*', '=',
        '=', '\\', 's', '*', '[', '"', '\'', ']', '_', '_', 'm', 'a', 'i', 'n', '_', '_', '[',
        '"', '\'', ']', ':',
    ]
}

/// The idiom's pattern as text.
pub fn main_idiom_pattern() -> (r: String)
    ensures
        r@ == main_idiom_text(),
{
    let p = "if\\s+__name__\\s*==\\s*[\"']__main__[\"']:";
    proof {
        reveal_strlit("if\\s+__name__\\s*==\\s*[\"']__main__[\"']:");
    }
    let r = String::from_str(p);
    assert(r@ =~= main_idiom_text());
    r
}

/// Whether some line of `text` holds the idiom that runs it directly.
/// `None` exactly when the pattern does not compile.
pub fn has_main_idiom(text: &str) -> (r: Option<bool>)
    ensures
        r is Some <==> regex_compiles(main_idiom_text()),
        r matches Some(b) ==> (b <==> exists|i: int|
            0 <= i < lines_of(text@).len() && regex_finds(
                main_idiom_text(),
                #[trigger] lines_of(text@)[i],
            )),
{
    let pattern = main_idiom_pattern();
    let matcher = match LineMatcher::new(pattern.as_str()) {
        Some(m) => m,
        None => {
            return None;
        },
    };
    let lines = split_lines(text);
    let mut i: usize = 0;
    while i < lines.len()
        invariant
            i <= lines@.len(),
            texts(lines@) == lines_of(text@),
            matcher.pattern() == main_idiom_text(),
            regex_compiles(main_idiom_text()),
            forall|k: int| 0 <= k < i ==> !regex_finds(main_idiom_text(), #[trigger] lines_of(text@)[k]),
        decreases lines@.len() - i,
    {
        assert(lines_of(text@)[i as int] == lines@[i as int]@);
        if matcher.finds(lines[i].as_str()) {
            return Some(true);
        }
        i = i + 1;
    }
    Some(false)
}

} // verus!
