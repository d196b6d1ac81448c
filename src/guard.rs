//! The key under which the per-repository lock registry files a repository
//! path, and the check that keeps a path inside the repository.

use vstd::prelude::*;
use crate::text::{chars_of, lower_of, lowercase, split_chars, split_on, string_of, trim, trim_chars, views};

verus! {

/// `s` with each backslash turned into a slash.
pub open spec fn forward_slashes(s: Seq<char>) -> Seq<char> {
    s.map_values(|c: char| if c == '\\' { '/' } else { c })
}

/// `s` without the slashes at its end, keeping a lone `/`.
pub open spec fn without_trailing_slashes(s: Seq<char>) -> Seq<char>
    decreases s.len(),
{
    if s.len() > 1 && s.last() == '/' {
        without_trailing_slashes(s.drop_last())
    } else {
        s
    }
}

/// The registry key of a repository path: trimmed, with forward slashes and
/// no trailing slash, and lowercased where the file system ignores case.
pub open spec fn repo_key_of(path: Seq<char>, case_insensitive: bool) -> Seq<char> {
    let k = without_trailing_slashes(forward_slashes(trim(path)));
    if case_insensitive {
        lower_of(k)
    } else {
        k
    }
}

/// The registry key of a repository path before case is folded: trimmed,
/// with forward slashes and no trailing slash.
pub fn repo_key_cased(path: &str) -> (r: String)
    ensures
        r@ == without_trailing_slashes(forward_slashes(trim(path@))),
{
    let t = trim_chars(&chars_of(path));
    let mut v: Vec<char> = Vec::new();
    let mut i: usize = 0;
    while i < t.len()
        invariant
            i <= t.len(),
            v@ == forward_slashes(t@).take(i as int),
        decreases t.len() - i,
    {
        let c = t[i];
        v.push(
            if c == '\\' {
                '/'
            } else {
                c
            },
        );
        proof {
            assert(forward_slashes(t@).take(i + 1) =~= forward_slashes(t@).take(i as int).push(
                forward_slashes(t@)[i as int],
            ));
        }
        i += 1;
    }
    proof {
        assert(forward_slashes(t@).take(t.len() as int) == forward_slashes(t@));
    }
    let ghost full = v@;
    while v.len() > 1 && v[v.len() - 1] == '/'
        invariant
            without_trailing_slashes(full) == without_trailing_slashes(v@),
        decreases v.len(),
    {
        let ghost before = v@;
        v.pop();
        proof {
            assert(v@ == before.drop_last());
        }
    }
    string_of(&v)
}

/// The registry key of a repository path (see [`repo_key_of`]).
pub fn normalize_repo_key(path: &str, case_insensitive: bool) -> (r: String)
    ensures
        r@ == repo_key_of(path@, case_insensitive),
{
    let k = repo_key_cased(path);
    if case_insensitive {
        lowercase(k.as_str())
    } else {
        k
    }
}

/// `p` is a relative path that stays inside the repository: not rooted, no
/// drive letter, and no `..` component (with `/` and `\\` both separating
/// components).
pub open spec fn safe_relative(p: Seq<char>) -> bool {
    let f = forward_slashes(p);
    let parts = split_on(f, '/');
    &&& !(f.len() > 0 && f[0] == '/')
    &&& !(f.len() >= 2 && f[1] == ':')
    &&& forall|i: int| 0 <= i < parts.len() ==> parts[i] != seq!['.', '.']
}

/// Whether `p` is a relative path that stays inside the repository.
pub fn is_safe_relative_path(p: &str) -> (r: bool)
    ensures
        r == safe_relative(p@),
{
    let v = chars_of(p);
    let mut f: Vec<char> = Vec::new();
    let mut i: usize = 0;
    while i < v.len()
        invariant
            i <= v.len(),
            f@ == forward_slashes(v@).take(i as int),
        decreases v.len() - i,
    {
        let c = v[i];
        f.push(
            if c == '\\' {
                '/'
            } else {
                c
            },
        );
        proof {
            assert(forward_slashes(v@).take(i + 1) =~= forward_slashes(v@).take(i as int).push(
                forward_slashes(v@)[i as int],
            ));
        }
        i += 1;
    }
    proof {
        assert(forward_slashes(v@).take(v.len() as int) == forward_slashes(v@));
    }
    if f.len() > 0 && f[0] == '/' {
        return false;
    }
    if f.len() >= 2 && f[1] == ':' {
        return false;
    }
    let parts = split_chars(&f, '/');
    let mut k: usize = 0;
    while k < parts.len()
        invariant
            k <= parts.len(),
            views(parts@) == split_on(f@, '/'),
            f@ == forward_slashes(p@),
            forall|j: int| 0 <= j < k ==> views(parts@)[j] != seq!['.', '.'],
        decreases parts.len() - k,
    {
        let part = &parts[k];
        if part.len() == 2 && part[0] == '.' && part[1] == '.' {
            proof {
                assert(views(parts@)[k as int] =~= seq!['.', '.']);
            }
            return false;
        }
        proof {
            assert(views(parts@)[k as int] == part@);
            if part@ == seq!['.', '.'] {
                assert(part@.len() == 2);
            }
        }
        k += 1;
    }
    true
}

} // verus!
