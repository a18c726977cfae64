//! Path-string logic: joining a directory with a file name, splitting off the
//! final component of a path, and extracting a file extension.
//!
//! Paths are treated as plain character sequences. A component separator is
//! `/` or `\`; the extension of a path is the part of its final component
//! after the last dot, provided that dot is not the component's first
//! character, and the component is not the parent-directory marker `..`.

use vstd::prelude::*;

verus! {

/// A path-component separator.
pub open spec fn is_sep(c: char) -> bool {
    c == '/' || c == '\\'
}

/// The index of the last element of `s` satisfying `f`, or `-1` if none does.
pub open spec fn last_index_where(s: Seq<char>, f: spec_fn(char) -> bool) -> int
    decreases s.len(),
{
    if s.len() == 0 {
        -1
    } else if f(s.last()) {
        s.len() - 1
    } else {
        last_index_where(s.drop_last(), f)
    }
}

pub proof fn lemma_last_index_where(s: Seq<char>, f: spec_fn(char) -> bool)
    ensures
        -1 <= last_index_where(s, f) < s.len(),
        last_index_where(s, f) >= 0 ==> f(s[last_index_where(s, f)]),
        forall|j: int| last_index_where(s, f) < j < s.len() ==> !f(s[j]),
    decreases s.len(),
{
    if s.len() > 0 && !f(s.last()) {
        lemma_last_index_where(s.drop_last(), f);
        assert forall|j: int| last_index_where(s, f) < j < s.len() implies !f(s[j]) by {
            if j < s.len() - 1 {
                assert(s.drop_last()[j] == s[j]);
            }
        }
    }
}

/// Exactly one index can be the last one satisfying `f`.
pub proof fn lemma_last_index_where_unique(s: Seq<char>, f: spec_fn(char) -> bool, k: int)
    requires
        -1 <= k < s.len(),
        k >= 0 ==> f(s[k]),
        forall|j: int| k < j < s.len() ==> !f(s[j]),
    ensures
        last_index_where(s, f) == k,
    decreases s.len(),
{
    if s.len() == 0 {
    } else if f(s.last()) {
        assert(k == s.len() - 1);
    } else {
        assert(k < s.len() - 1);
        lemma_last_index_where_unique(s.drop_last(), f, k);
    }
}

/// The index of the first element of `s` satisfying `f`, or `-1` if none
/// does.
pub open spec fn first_index_where(s: Seq<char>, f: spec_fn(char) -> bool) -> int
    decreases s.len(),
{
    if s.len() == 0 {
        -1
    } else if f(s[0]) {
        0
    } else {
        let r = first_index_where(s.drop_first(), f);
        if r < 0 {
            -1
        } else {
            1 + r
        }
    }
}

/// Exactly one index can be the first one satisfying `f`.
pub proof fn lemma_first_index_where_unique(s: Seq<char>, f: spec_fn(char) -> bool, k: int)
    requires
        0 <= k < s.len(),
        f(s[k]),
        forall|j: int| 0 <= j < k ==> !f(s[j]),
    ensures
        first_index_where(s, f) == k,
    decreases s.len(),
{
    if k > 0 {
        assert(!f(s[0]));
        assert forall|j: int| 0 <= j < k - 1 implies !f(s.drop_first()[j]) by {
            assert(s.drop_first()[j] == s[j + 1]);
        }
        assert(s.drop_first()[k - 1] == s[k]);
        lemma_first_index_where_unique(s.drop_first(), f, k - 1);
    }
}

/// The separator predicate as a value, so that every use names one function.
pub open spec fn sep_fn() -> spec_fn(char) -> bool {
    |c: char| is_sep(c)
}

/// The dot predicate as a value.
pub open spec fn dot_fn() -> spec_fn(char) -> bool {
    |c: char| c == '.'
}

/// The final component of a path: everything after the last separator.
pub open spec fn file_name_of(p: Seq<char>) -> Seq<char> {
    p.skip(last_index_where(p, sep_fn()) + 1)
}

/// The extension of a path, following the usual file-name convention:
/// the part of the final component after its last dot. A component with no
/// dot, one whose only dot leads it (a hidden file), and the
/// parent-directory marker `..` have no extension.
pub open spec fn ext_of(p: Seq<char>) -> Option<Seq<char>> {
    let f = file_name_of(p);
    let d = last_index_where(f, dot_fn());
    if f == seq!['.', '.'] {
        None
    } else if d <= 0 {
        None
    } else {
        Some(f.skip(d + 1))
    }
}

/// `dir` and `name` joined with a separator, unless `dir` is empty or
/// already ends with one.
pub open spec fn join(dir: Seq<char>, name: Seq<char>) -> Seq<char> {
    if dir.len() == 0 {
        name
    } else if is_sep(dir.last()) {
        dir + name
    } else {
        dir + seq!['/'] + name
    }
}

/// Joins a directory path and a file name, inserting `/` where needed.
pub fn join_path(dir: &str, name: &str) -> (r: String)
    ensures
        r@ == join(dir@, name@),
{
    proof {
        reveal_strlit("/");
    }
    let n: usize = dir.unicode_len();
    let mut out = String::new();
    out.append(dir);
    if n > 0 {
        let last = dir.get_char(n - 1);
        if !(last == '/' || last == '\\') {
            out.append("/");
        }
    }
    out.append(name);
    proof {
        assert(out@ =~= join(dir@, name@));
    }
    out
}

/// What lowercasing a piece of text yields. The full case-folding tables
/// are the standard library's business; the contracts only rely on the
/// result being a function of the characters alone.
pub uninterp spec fn lower_of(s: Seq<char>) -> Seq<char>;

/// Relies on str::to_lowercase: the result depends on the characters alone,
/// and an empty string stays empty.
#[verifier::external_body]
pub(crate) fn to_lowercase_string(s: &str) -> (r: String)
    ensures
        r@ == lower_of(s@),
        s@.len() == 0 ==> r@.len() == 0,
{
    s.to_lowercase()
}

/// Extracts the extension of `path`, if it has one.
pub fn extension_of(path: &str) -> (r: Option<String>)
    ensures
        r matches Some(e) ==> ext_of(path@) == Some(e@),
        r is None ==> ext_of(path@) is None,
{
    let n: usize = path.unicode_len();

    // Find the start of the final component.
    let mut start: usize = n;
    while start > 0
        invariant
            start <= n,
            n == path@.len(),
            forall|j: int| start <= j < n ==> !is_sep(path@[j]),
        ensures
            start <= n,
            n == path@.len(),
            forall|j: int| start <= j < n ==> !is_sep(path@[j]),
            start == 0 || is_sep(path@[start as int - 1]),
        decreases start,
    {
        let c = path.get_char(start - 1);
        if c == '/' || c == '\\' {
            break;
        }
        start = start - 1;
    }
    proof {
        lemma_last_index_where_unique(path@, sep_fn(), start as int - 1);
        assert(file_name_of(path@) == path@.skip(start as int));
    }
    let fname = path.substring_char(start, n);
    let m: usize = n - start;
    proof {
        assert(fname@ =~= file_name_of(path@));
    }

    // The parent-directory marker has no extension.
    if m == 2 && fname.get_char(0) == '.' && fname.get_char(1) == '.' {
        proof {
            assert(fname@ =~= seq!['.', '.']);
        }
        return None;
    }
    proof {
        assert(fname@ != seq!['.', '.']);
    }

    // Find the last dot of the final component.
    let mut dot: usize = m;
    while dot > 0
        invariant
            dot <= m,
            m == fname@.len(),
            forall|j: int| dot <= j < m ==> fname@[j] != '.',
        ensures
            dot <= m,
            m == fname@.len(),
            forall|j: int| dot <= j < m ==> fname@[j] != '.',
            dot == 0 || fname@[dot as int - 1] == '.',
        decreases dot,
    {
        let c = fname.get_char(dot - 1);
        if c == '.' {
            break;
        }
        dot = dot - 1;
    }
    proof {
        lemma_last_index_where_unique(fname@, dot_fn(), dot as int - 1);
    }
    if dot <= 1 {
        // No dot at all, or a leading dot only: no extension.
        return None;
    }
    let ext = fname.substring_char(dot, m);
    proof {
        assert(ext@ =~= file_name_of(path@).skip(dot as int));
    }
    Some(ext.to_owned())
}

} // verus!
