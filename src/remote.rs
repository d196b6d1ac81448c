//! Exchange with other repositories: what a pull would do and which paths
//! it would conflict on, the conflicts a pull reported, progress lines of a
//! clone, and which commits are already on a remote.

use vstd::prelude::*;
use crate::order::{insert_sorted, keys_of, lemma_value_for, put_sorted, strictly_sorted, value_for};
use crate::status::string_views;
use crate::text::{
    chars_of, contains, contains_chars, has_prefix, is_digit, lines, lines_of, occurs_at,
    occurs_at_index, parse_u32, parse_u32_chars, slice_of, starts_with, string_from, string_of,
    trim, trim_chars, views, words, words_of,
};

verus! {

/// The trimmed lines that are not blank, in order.
pub open spec fn trimmed_lines(ls: Seq<Seq<char>>) -> Seq<Seq<char>>
    decreases ls.len(),
{
    if ls.len() == 0 {
        seq![]
    } else {
        let r = trimmed_lines(ls.drop_last());
        if trim(ls.last()).len() > 0 {
            r.push(trim(ls.last()))
        } else {
            r
        }
    }
}

/// The trimmed lines of `text` that are not blank.
pub fn trimmed_nonblank_lines(text: &str) -> (r: Vec<String>)
    ensures
        string_views(r@) == trimmed_lines(lines(text@)),
{
    let ls = lines_of(&chars_of(text));
    let ghost lv = views(ls@);
    let mut out: Vec<String> = Vec::new();
    let mut i: usize = 0;
    while i < ls.len()
        invariant
            i <= ls.len(),
            lv == views(ls@),
            string_views(out@) == trimmed_lines(lv.take(i as int)),
        decreases ls.len() - i,
    {
        proof {
            assert(lv.take(i + 1).drop_last() == lv.take(i as int));
            assert(lv.take(i + 1).last() == ls@[i as int]@);
        }
        let t = trim_chars(&ls[i]);
        if t.len() > 0 {
            let ghost before = out@;
            out.push(string_of(&t));
            proof {
                assert(string_views(out@) =~= string_views(before).push(t@));
            }
        }
        i += 1;
    }
    proof {
        assert(lv.take(ls.len() as int) == lv);
    }
    out
}

/// The commits already on a remote: the tips of the remote refs
/// (`git for-each-ref --format=%(objectname) refs/remotes/`), the merge base
/// with the rebase base (when there is one), and every commit that
/// `git rev-list --remotes` lists (when it succeeded).
pub fn get_pushed_commits(remote_refs: &str, merge_base: Option<&str>, rev_list: Option<&str>) -> (r:
    Vec<String>)
    ensures
        string_views(r@) == trimmed_lines(lines(remote_refs@)) + (match merge_base {
            Some(mb) => if trim(mb@).len() > 0 {
                seq![trim(mb@)]
            } else {
                seq![]
            },
            None => seq![],
        }) + (match rev_list {
            Some(rl) => trimmed_lines(lines(rl@)),
            None => seq![],
        }),
{
    let mut out = trimmed_nonblank_lines(remote_refs);
    let ghost a = string_views(out@);
    match merge_base {
        Some(mb) => {
            let t = trim_chars(&chars_of(mb));
            if t.len() > 0 {
                out.push(string_of(&t));
            }
        },
        None => {},
    }
    let ghost b = string_views(out@);
    proof {
        assert(b =~= a + (match merge_base {
            Some(mb) => if trim(mb@).len() > 0 {
                seq![trim(mb@)]
            } else {
                seq![]
            },
            None => seq![],
        }));
    }
    match rev_list {
        Some(rl) => {
            let more = trimmed_nonblank_lines(rl);
            let mut i: usize = 0;
            while i < more.len()
                invariant
                    i <= more.len(),
                    string_views(out@) == b + string_views(more@).take(i as int),
                decreases more.len() - i,
            {
                let ghost before = out@;
                out.push(more[i].clone());
                proof {
                    assert(string_views(out@) =~= string_views(before).push(more@[i as int]@));
                    assert(string_views(more@).take(i + 1) =~= string_views(more@).take(
                        i as int,
                    ).push(more@[i as int]@));
                }
                i += 1;
            }
            proof {
                assert(string_views(more@).take(more.len() as int) == string_views(more@));
            }
        },
        None => {
            proof {
                assert(string_views(out@) =~= b + seq![]);
            }
        },
    }
    out
}

/// The index of the last occurrence of `p` in `s`.
pub open spec fn last_occurrence(s: Seq<char>, p: Seq<char>) -> Option<int> {
    if exists|i: int| occurs_at(s, p, i) {
        Some(
            choose|i: int| occurs_at(s, p, i) && forall|j: int| i < j ==> !occurs_at(s, p, j),
        )
    } else {
        None
    }
}

fn last_occurrence_of(v: &Vec<char>, p: &Vec<char>) -> (r: Option<usize>)
    ensures
        match r {
            Some(i) => last_occurrence(v@, p@) == Some(i as int) && i + p.len() <= v.len(),
            None => last_occurrence(v@, p@) is None,
        },
{
    let n = v.len();
    if occurs_at_index(v, p, n) {
        proof {
            let k = n as int;
            let c = choose|c: int| occurs_at(v@, p@, c) && forall|j: int| c < j ==> !occurs_at(v@, p@, j);
            assert(occurs_at(v@, p@, k) && forall|j: int| k < j ==> !occurs_at(v@, p@, j));
            if c < k {
            } else if c > k {
            }
            assert(c == k);
        }
        return Some(n);
    }
    let mut i: usize = n;
    while i > 0
        invariant
            i <= v.len(),
            forall|j: int| i <= j ==> !occurs_at(v@, p@, j),
        decreases i,
    {
        if occurs_at_index(v, p, i - 1) {
            proof {
                let k = (i - 1) as int;
                let c = choose|c: int| occurs_at(v@, p@, c) && forall|j: int| c < j ==> !occurs_at(v@, p@, j);
                assert(occurs_at(v@, p@, k) && forall|j: int| k < j ==> !occurs_at(v@, p@, j));
                if c < k {
                } else if c > k {
                }
                assert(c == k);
            }
            return Some(i - 1);
        }
        i -= 1;
    }
    None
}

/// The path that one line of a failed pull's output reports in conflict:
/// a `CONFLICT` line names it after its last ` in `, or else after its last
/// colon.
pub open spec fn conflict_line_path(line: Seq<char>) -> Option<Seq<char>> {
    if !contains(line, "CONFLICT"@) {
        None
    } else {
        match last_occurrence(line, " in "@) {
            Some(i) => {
                let p = trim(line.subrange(i + 4, line.len() as int));
                if p.len() > 0 {
                    Some(p)
                } else {
                    None
                }
            },
            None => match last_occurrence(line, ":"@) {
                Some(i) => {
                    let p = trim(line.subrange(i + 1, line.len() as int));
                    if p.len() > 0 {
                        Some(p)
                    } else {
                        None
                    }
                },
                None => None,
            },
        }
    }
}

/// The distinct conflicting paths of the lines, in order.
pub open spec fn conflict_paths(ls: Seq<Seq<char>>) -> Seq<Seq<char>>
    decreases ls.len(),
{
    if ls.len() == 0 {
        seq![]
    } else {
        let r = conflict_paths(ls.drop_last());
        match conflict_line_path(ls.last()) {
            Some(p) => if r.contains(p) {
                r
            } else {
                r.push(p)
            },
            None => r,
        }
    }
}

fn conflict_line_path_of(line: &Vec<char>) -> (r: Option<Vec<char>>)
    ensures
        match r {
            Some(p) => conflict_line_path(line@) == Some(p@),
            None => conflict_line_path(line@) is None,
        },
{
    if !contains_chars(line, &chars_of("CONFLICT")) {
        return None;
    }
    let sep = chars_of(" in ");
    proof {
        reveal_strlit(" in ");
        reveal_strlit(":");
    }
    match last_occurrence_of(line, &sep) {
        Some(i) => {
            let p = trim_chars(&slice_of(line, i + 4, line.len()));
            if p.len() > 0 {
                Some(p)
            } else {
                None
            }
        },
        None => match last_occurrence_of(line, &chars_of(":")) {
            Some(i) => {
                let p = trim_chars(&slice_of(line, i + 1, line.len()));
                if p.len() > 0 {
                    Some(p)
                } else {
                    None
                }
            },
            None => None,
        },
    }
}

fn contains_string(v: &Vec<String>, p: &Vec<char>) -> (r: bool)
    ensures
        r == string_views(v@).contains(p@),
{
    let mut i: usize = 0;
    while i < v.len()
        invariant
            i <= v.len(),
            forall|k: int| 0 <= k < i ==> v@[k]@ != p@,
        decreases v.len() - i,
    {
        if crate::text::eq_chars(&chars_of(v[i].as_str()), p) {
            proof {
                assert(string_views(v@)[i as int] == p@);
            }
            return true;
        }
        i += 1;
    }
    proof {
        if string_views(v@).contains(p@) {
            let k = choose|k: int| 0 <= k < v@.len() && string_views(v@)[k] == p@;
            assert(v@[k]@ == p@);
        }
    }
    false
}

/// The distinct paths that a failed pull's output reports in conflict.
pub fn parse_conflict_files(text: &str) -> (r: Vec<String>)
    ensures
        string_views(r@) == conflict_paths(lines(text@)),
{
    let ls = lines_of(&chars_of(text));
    let ghost lv = views(ls@);
    let mut out: Vec<String> = Vec::new();
    let mut i: usize = 0;
    while i < ls.len()
        invariant
            i <= ls.len(),
            lv == views(ls@),
            string_views(out@) == conflict_paths(lv.take(i as int)),
        decreases ls.len() - i,
    {
        proof {
            assert(lv.take(i + 1).drop_last() == lv.take(i as int));
            assert(lv.take(i + 1).last() == ls@[i as int]@);
        }
        match conflict_line_path_of(&ls[i]) {
            Some(p) => {
                if !contains_string(&out, &p) {
                    let ghost before = out@;
                    out.push(string_of(&p));
                    proof {
                        assert(string_views(out@) =~= string_views(before).push(p@));
                    }
                }
            },
            None => {},
        }
        i += 1;
    }
    proof {
        assert(lv.take(ls.len() as int) == lv);
    }
    out
}

/// The path of a `git merge-tree` (trivial merge) line `base|our|their
/// <mode> <object> <path>`: its last word.
pub open spec fn merge_tree_path(line: Seq<char>) -> Option<Seq<char>> {
    let t = trim(line);
    if starts_with(t, "base "@) || starts_with(t, "our "@) || starts_with(t, "their "@) {
        let ws = words(t);
        if ws.len() > 0 {
            Some(ws.last())
        } else {
            None
        }
    } else {
        None
    }
}

/// The paths that the merge-tree lines name.
pub open spec fn merge_tree_paths(ls: Seq<Seq<char>>) -> Seq<Seq<char>>
    decreases ls.len(),
{
    if ls.len() == 0 {
        seq![]
    } else {
        let r = merge_tree_paths(ls.drop_last());
        match merge_tree_path(ls.last()) {
            Some(p) => r.push(p),
            None => r,
        }
    }
}

/// The paths that a predicted merge would conflict on: those that
/// `git merge-tree --name-only <base> HEAD <upstream>` lists when it
/// succeeded, else those that the older `git merge-tree <base> HEAD
/// <upstream>` output names when it succeeded, else none.
pub open spec fn predicted_paths(name_only: Option<Seq<char>>, fallback: Option<Seq<char>>) -> Seq<
    Seq<char>,
> {
    match name_only {
        Some(o) => trimmed_lines(lines(o)),
        None => match fallback {
            Some(f) => merge_tree_paths(lines(f)),
            None => seq![],
        },
    }
}

fn merge_tree_path_of(line: &Vec<char>) -> (r: Option<Vec<char>>)
    ensures
        match r {
            Some(p) => merge_tree_path(line@) == Some(p@),
            None => merge_tree_path(line@) is None,
        },
{
    let t = trim_chars(line);
    if has_prefix(&t, &chars_of("base ")) || has_prefix(&t, &chars_of("our ")) || has_prefix(
        &t,
        &chars_of("their "),
    ) {
        let ws = words_of(&t);
        if ws.len() > 0 {
            let k = ws.len() - 1;
            let p = slice_of(&ws[k], 0, ws[k].len());
            proof {
                assert(views(ws@).last() == ws@[k as int]@);
                assert(ws@[k as int]@.subrange(0, ws@[k as int]@.len() as int) == ws@[k as int]@);
            }
            Some(p)
        } else {
            None
        }
    } else {
        None
    }
}

fn collect_paths(text: &str, trivial_merge: bool) -> (r: Vec<String>)
    ensures
        trivial_merge ==> string_views(r@) == merge_tree_paths(lines(text@)),
        !trivial_merge ==> string_views(r@) == trimmed_lines(lines(text@)),
{
    if !trivial_merge {
        return trimmed_nonblank_lines(text);
    }
    let ls = lines_of(&chars_of(text));
    let ghost lv = views(ls@);
    let mut out: Vec<String> = Vec::new();
    let mut i: usize = 0;
    while i < ls.len()
        invariant
            i <= ls.len(),
            lv == views(ls@),
            string_views(out@) == merge_tree_paths(lv.take(i as int)),
        decreases ls.len() - i,
    {
        proof {
            assert(lv.take(i + 1).drop_last() == lv.take(i as int));
            assert(lv.take(i + 1).last() == ls@[i as int]@);
        }
        match merge_tree_path_of(&ls[i]) {
            Some(p) => {
                let ghost before = out@;
                out.push(string_of(&p));
                proof {
                    assert(string_views(out@) =~= string_views(before).push(p@));
                }
            },
            None => {},
        }
        i += 1;
    }
    proof {
        assert(lv.take(ls.len() as int) == lv);
    }
    out
}

pub open spec fn opt_text(o: Option<&str>) -> Option<Seq<char>> {
    match o {
        Some(t) => Some(t@),
        None => None,
    }
}

/// The paths a merge with the upstream would conflict on, sorted and
/// without duplicates (see [`predicted_paths`]).  Each argument is the
/// output of a merge-tree run that succeeded; `None` where it failed or was
/// not run.
pub fn predict_merge_conflicts(name_only: Option<&str>, fallback: Option<&str>) -> (r: Vec<String>)
    ensures
        strictly_sorted(string_views(r@)),
        forall|s: Seq<char>|
            #[trigger] string_views(r@).contains(s) <==> predicted_paths(
                opt_text(name_only),
                opt_text(fallback),
            ).contains(s),
{
    let found: Vec<String> = match name_only {
        Some(o) => collect_paths(o, false),
        None => match fallback {
            Some(f) => collect_paths(f, true),
            None => Vec::new(),
        },
    };
    let ghost fv = string_views(found@);
    proof {
        if name_only is None && fallback is None {
            assert(fv =~= seq![]);
        }
    }
    let mut out: Vec<String> = Vec::new();
    let mut i: usize = 0;
    proof {
        assert(string_views(out@) =~= seq![]);
    }
    while i < found.len()
        invariant
            i <= found.len(),
            fv == string_views(found@),
            strictly_sorted(string_views(out@)),
            forall|s: Seq<char>|
                #[trigger] string_views(out@).contains(s) <==> fv.take(i as int).contains(s),
        decreases found.len() - i,
    {
        let ghost prev = string_views(out@);
        insert_sorted(&mut out, found[i].clone());
        proof {
            let t = fv.take(i + 1);
            assert(t =~= fv.take(i as int).push(fv[i as int]));
            assert forall|s: Seq<char>| #[trigger] string_views(out@).contains(s) <==> t.contains(s) by {
                if t.contains(s) {
                    let k = choose|k: int| 0 <= k < t.len() && t[k] == s;
                    if k < i {
                        assert(fv.take(i as int)[k] == s);
                    }
                }
                if fv.take(i as int).contains(s) {
                    let k = choose|k: int| 0 <= k < i && fv.take(i as int)[k] == s;
                    assert(t[k] == s);
                }
                if s == fv[i as int] {
                    assert(t[i as int] == s);
                }
            }
        }
        i += 1;
    }
    proof {
        assert(fv.take(found.len() as int) == fv);
    }
    out
}

/// What a pull would do.
#[derive(PartialEq, Eq, Structural, Clone, Copy, Debug)]
pub enum PullAction {
    NoUpstream,
    Noop,
    FastForward,
    Rebase,
    MergeCommit,
}

/// What a pull would do: nothing without an upstream or when nothing is
/// behind, a fast-forward when nothing is ahead, else a rebase or a merge
/// commit as asked.
pub open spec fn pull_action_of(has_upstream: bool, ahead: u32, behind: u32, rebase: bool) -> PullAction {
    if !has_upstream {
        PullAction::NoUpstream
    } else if behind == 0 {
        PullAction::Noop
    } else if ahead == 0 {
        PullAction::FastForward
    } else if rebase {
        PullAction::Rebase
    } else {
        PullAction::MergeCommit
    }
}

pub fn pull_action(has_upstream: bool, ahead: u32, behind: u32, rebase: bool) -> (r: PullAction)
    ensures
        r == pull_action_of(has_upstream, ahead, behind, rebase),
{
    if !has_upstream {
        PullAction::NoUpstream
    } else if behind == 0 {
        PullAction::Noop
    } else if ahead == 0 {
        PullAction::FastForward
    } else if rebase {
        PullAction::Rebase
    } else {
        PullAction::MergeCommit
    }
}

impl PullAction {
    /// The name that the client shows.
    pub fn name(&self) -> (r: String)
        ensures
            r@ == match *self {
                PullAction::NoUpstream => "no-upstream"@,
                PullAction::Noop => "noop"@,
                PullAction::FastForward => "fast-forward"@,
                PullAction::Rebase => "rebase"@,
                PullAction::MergeCommit => "merge-commit"@,
            },
    {
        match self {
            PullAction::NoUpstream => string_from("no-upstream"),
            PullAction::Noop => string_from("noop"),
            PullAction::FastForward => string_from("fast-forward"),
            PullAction::Rebase => string_from("rebase"),
            PullAction::MergeCommit => string_from("merge-commit"),
        }
    }
}

/// A count read from `git rev-list --left-right --count` output; 0 where the
/// word is missing or unreadable.
pub open spec fn count_word(ws: Seq<Seq<char>>, k: int) -> u32 {
    if 0 <= k < ws.len() {
        match parse_u32(ws[k]) {
            Some(n) => n,
            None => 0,
        }
    } else {
        0
    }
}

/// The (ahead, behind) counts in `git rev-list --left-right --count
/// <upstream>...HEAD` output: behind first, then ahead.
pub fn parse_ahead_behind(raw: &str) -> (r: (u32, u32))
    ensures
        r == (count_word(words(raw@), 1), count_word(words(raw@), 0)),
{
    let ws = words_of(&chars_of(raw));
    let behind = if ws.len() > 0 {
        proof {
            assert(views(ws@)[0] == ws@[0]@);
        }
        match parse_u32_chars(&ws[0]) {
            Some(n) => n,
            None => 0,
        }
    } else {
        0
    };
    let ahead = if ws.len() > 1 {
        proof {
            assert(views(ws@)[1] == ws@[1]@);
        }
        match parse_u32_chars(&ws[1]) {
            Some(n) => n,
            None => 0,
        }
    } else {
        0
    };
    (ahead, behind)
}

/// `s` is where the run of digits that ends at `idx` begins.
pub open spec fn digit_run_start(m: Seq<char>, idx: int, s: int) -> bool {
    0 <= s <= idx && (s == 0 || !is_digit(m[s - 1])) && forall|k: int|
        s <= k < idx ==> is_digit(m[k])
}

/// The percentage in a progress message: the digits just before the first
/// `%`, if they read as a number no greater than 100.
pub open spec fn progress_percent(m: Seq<char>) -> Option<u32> {
    if exists|i: int| 0 <= i < m.len() && m[i] == '%' {
        let idx = choose|i: int|
            0 <= i < m.len() && m[i] == '%' && forall|k: int| 0 <= k < i ==> m[k] != '%';
        let start = choose|s: int| #[trigger] digit_run_start(m, idx, s);
        let digits = trim(m.subrange(start, idx));
        if digits.len() == 0 {
            None
        } else {
            match parse_u32(digits) {
                Some(p) => if p > 100 {
                    None
                } else {
                    Some(p)
                },
                None => None,
            }
        }
    } else {
        None
    }
}

/// Reads the percentage of a progress message.
pub fn extract_progress_percent(message: &str) -> (r: Option<u32>)
    ensures
        r == progress_percent(message@),
{
    let m = chars_of(message);
    let idx = match crate::text::find_char(&m, '%') {
        Some(i) => i,
        None => {
            return None;
        },
    };
    proof {
        let c = choose|c: int|
            0 <= c < m@.len() && m@[c] == '%' && forall|k: int| 0 <= k < c ==> m@[k] != '%';
        assert(0 <= c < m@.len() && m@[c] == '%' && forall|k: int| 0 <= k < c ==> m@[k] != '%');
        if c > idx {
            assert(m@[idx as int] == '%');
        }
        assert(c == idx);
    }
    let mut start: usize = idx;
    while start > 0 && '0' <= m[start - 1] && m[start - 1] <= '9'
        invariant
            start <= idx < m.len(),
            forall|k: int| start <= k < idx ==> is_digit(m@[k]),
        decreases start,
    {
        start -= 1;
    }
    proof {
        assert(digit_run_start(m@, idx as int, start as int));
        let s = choose|s: int| #[trigger] digit_run_start(m@, idx as int, s);
        if s < start {
            assert(is_digit(m@[start - 1]));
        } else if s > start {
            assert(is_digit(m@[s - 1]));
        }
        assert(s == start);
    }
    let digits = trim_chars(&slice_of(&m, start, idx));
    if digits.len() == 0 {
        return None;
    }
    match parse_u32_chars(&digits) {
        Some(p) => if p > 100 {
            None
        } else {
            Some(p)
        },
        None => None,
    }
}

/// The phase, percentage and message of a clone progress line: the line,
/// trimmed and without a `remote:` prefix, must hold a percentage and a
/// non-blank phase before its first colon.
pub open spec fn clone_progress(line: Seq<char>) -> Option<(Seq<char>, u32, Seq<char>)> {
    let t = trim(line);
    let body = if starts_with(t, "remote:"@) {
        trim(t.subrange(7, t.len() as int))
    } else {
        t
    };
    if t.len() == 0 {
        None
    } else {
        match progress_percent(body) {
            Some(p) => {
                let phase = trim(crate::text::split_on(body, ':')[0]);
                if phase.len() == 0 {
                    None
                } else {
                    Some((phase, p, body))
                }
            },
            None => None,
        }
    }
}

/// Reads one line of `git clone --progress` output.
pub fn parse_git_clone_progress_line(line: &str) -> (r: Option<(String, u32, String)>)
    ensures
        match r {
            Some(x) => clone_progress(line@) == Some((x.0@, x.1, x.2@)),
            None => clone_progress(line@) is None,
        },
{
    let t = trim_chars(&chars_of(line));
    if t.len() == 0 {
        return None;
    }
    let prefix = chars_of("remote:");
    proof {
        reveal_strlit("remote:");
    }
    let body = if has_prefix(&t, &prefix) {
        trim_chars(&slice_of(&t, 7, t.len()))
    } else {
        t
    };
    let body_text = string_of(&body);
    let pct = match extract_progress_percent(body_text.as_str()) {
        Some(p) => p,
        None => {
            return None;
        },
    };
    let pieces = crate::text::split_chars(&body, ':');
    proof {
        crate::text::lemma_split_on_nonempty(body@, ':');
        assert(views(pieces@)[0] == pieces@[0]@);
    }
    let phase = trim_chars(&pieces[0]);
    if phase.len() == 0 {
        return None;
    }
    Some((string_of(&phase), pct, body_text))
}

/// `s` without every `^{}` at its end.
pub open spec fn strip_peel(s: Seq<char>) -> Seq<char>
    decreases s.len(),
{
    if s.len() >= 3 && s[s.len() - 3] == '^' && s[s.len() - 2] == '{' && s[s.len() - 1] == '}' {
        strip_peel(s.subrange(0, s.len() - 3))
    } else {
        s
    }
}

/// `s` names a peeled tag: it ends with `^{}`.
pub open spec fn is_peeled(s: Seq<char>) -> bool {
    s.len() >= 3 && s[s.len() - 3] == '^' && s[s.len() - 2] == '{' && s[s.len() - 1] == '}'
}

/// The tag, commit and peeled mark of one `<hash> refs/tags/<name>` line of
/// `git show-ref --tags -d` or `git ls-remote --tags` output.
pub open spec fn tag_line(l: Seq<char>) -> Option<(Seq<char>, Seq<char>, bool)> {
    let t = trim(l);
    let ws = words(t);
    let hash = if ws.len() > 0 {
        ws[0]
    } else {
        seq![]
    };
    let reference = if ws.len() > 1 {
        ws[1]
    } else {
        seq![]
    };
    if t.len() == 0 || hash.len() == 0 || reference.len() == 0 || !starts_with(
        reference,
        "refs/tags/"@,
    ) {
        None
    } else {
        let name = reference.subrange(10, reference.len() as int);
        if name.len() == 0 {
            None
        } else if is_peeled(name) {
            if strip_peel(name).len() == 0 {
                None
            } else {
                Some((strip_peel(name), hash, true))
            }
        } else {
            Some((name, hash, false))
        }
    }
}

/// The commit each tag points at: a peeled line (`<tag>^{}`) names the
/// commit of an annotated tag and wins; a plain line counts only for a tag
/// not seen yet.
pub open spec fn tag_map(ls: Seq<Seq<char>>) -> Map<Seq<char>, Seq<char>>
    decreases ls.len(),
{
    if ls.len() == 0 {
        Map::empty()
    } else {
        let m = tag_map(ls.drop_last());
        match tag_line(ls.last()) {
            Some(t) => if t.2 || !m.dom().contains(t.0) {
                m.insert(t.0, t.1)
            } else {
                m
            },
            None => m,
        }
    }
}

/// A tag and the commit it points at.
pub struct GitTagTarget {
    pub name: String,
    pub target: String,
}

pub open spec fn tag_names(v: Seq<GitTagTarget>) -> Seq<Seq<char>> {
    v.map_values(|t: GitTagTarget| t.name@)
}

fn strip_peel_of(v: &Vec<char>) -> (r: Vec<char>)
    ensures
        r@ == strip_peel(v@),
{
    let mut j: usize = v.len();
    proof {
        assert(v@.subrange(0, v.len() as int) == v@);
    }
    while j >= 3 && v[j - 3] == '^' && v[j - 2] == '{' && v[j - 1] == '}'
        invariant
            j <= v.len(),
            strip_peel(v@) == strip_peel(v@.subrange(0, j as int)),
        decreases j,
    {
        proof {
            assert(v@.subrange(0, j as int).subrange(0, j - 3) == v@.subrange(0, j - 3));
        }
        j -= 3;
    }
    slice_of(v, 0, j)
}

fn tag_line_of(l: &Vec<char>) -> (r: Option<(Vec<char>, Vec<char>, bool)>)
    ensures
        match r {
            Some(t) => tag_line(l@) == Some((t.0@, t.1@, t.2)),
            None => tag_line(l@) is None,
        },
{
    let t = trim_chars(l);
    let ws = words_of(&t);
    let hash: Vec<char> = if ws.len() > 0 {
        slice_of(&ws[0], 0, ws[0].len())
    } else {
        Vec::new()
    };
    let reference: Vec<char> = if ws.len() > 1 {
        slice_of(&ws[1], 0, ws[1].len())
    } else {
        Vec::new()
    };
    proof {
        if ws.len() > 0 {
            assert(views(ws@)[0] == ws@[0]@);
            assert(ws@[0]@.subrange(0, ws@[0]@.len() as int) == ws@[0]@);
        }
        if ws.len() > 1 {
            assert(views(ws@)[1] == ws@[1]@);
            assert(ws@[1]@.subrange(0, ws@[1]@.len() as int) == ws@[1]@);
        }
        reveal_strlit("refs/tags/");
    }
    let prefix = chars_of("refs/tags/");
    if t.len() == 0 || hash.len() == 0 || reference.len() == 0 || !has_prefix(&reference, &prefix) {
        return None;
    }
    let name = slice_of(&reference, 10, reference.len());
    if name.len() == 0 {
        return None;
    }
    let n = name.len();
    if n >= 3 && name[n - 3] == '^' && name[n - 2] == '{' && name[n - 1] == '}' {
        let base = strip_peel_of(&name);
        if base.len() == 0 {
            None
        } else {
            Some((base, hash, true))
        }
    } else {
        Some((name, hash, false))
    }
}

/// The tags and the commits they point at (see [`tag_map`]), sorted by
/// tag name.
pub fn parse_tag_targets_from_lines(text: &str) -> (r: Vec<GitTagTarget>)
    ensures
        strictly_sorted(tag_names(r@)),
        forall|k: Seq<char>| #[trigger] tag_names(r@).contains(k) <==> tag_map(lines(text@)).dom().contains(k),
        forall|i: int|
            0 <= i < r@.len() ==> tag_map(lines(text@))[#[trigger] r@[i].name@] == r@[i].target@,
{
    let ls = lines_of(&chars_of(text));
    let ghost lv = views(ls@);
    let mut pairs: Vec<(String, String)> = Vec::new();
    let mut i: usize = 0;
    proof {
        assert(keys_of(pairs@) =~= seq![]);
    }
    while i < ls.len()
        invariant
            i <= ls.len(),
            lv == views(ls@),
            strictly_sorted(keys_of(pairs@)),
            forall|k: Seq<char>| #[trigger] keys_of(pairs@).contains(k) <==> tag_map(lv.take(i as int)).dom().contains(k),
            forall|k: Seq<char>|
                keys_of(pairs@).contains(k) ==> #[trigger] value_for(pairs@, k) == tag_map(lv.take(i as int))[k],
        decreases ls.len() - i,
    {
        proof {
            assert(lv.take(i + 1).drop_last() == lv.take(i as int));
            assert(lv.take(i + 1).last() == ls@[i as int]@);
        }
        match tag_line_of(&ls[i]) {
            Some(t) => {
                put_sorted(&mut pairs, string_of(&t.0), string_of(&t.1), t.2);
            },
            None => {},
        }
        i += 1;
    }
    proof {
        assert(lv.take(ls.len() as int) == lv);
    }
    let ghost m = tag_map(lv);
    let mut out: Vec<GitTagTarget> = Vec::new();
    let mut j: usize = 0;
    while j < pairs.len()
        invariant
            j <= pairs.len(),
            strictly_sorted(keys_of(pairs@)),
            forall|k: Seq<char>| #[trigger] keys_of(pairs@).contains(k) <==> m.dom().contains(k),
            forall|k: Seq<char>| keys_of(pairs@).contains(k) ==> #[trigger] value_for(pairs@, k) == m[k],
            tag_names(out@) == keys_of(pairs@).take(j as int),
            forall|k: int| 0 <= k < j ==> (#[trigger] out@[k]).target@ == pairs@[k].1@,
        decreases pairs.len() - j,
    {
        let ghost before = out@;
        out.push(GitTagTarget { name: pairs[j].0.clone(), target: pairs[j].1.clone() });
        proof {
            assert(tag_names(out@) =~= tag_names(before).push(pairs@[j as int].0@));
            assert(keys_of(pairs@).take(j + 1) =~= keys_of(pairs@).take(j as int).push(
                pairs@[j as int].0@,
            ));
        }
        j += 1;
    }
    proof {
        assert(keys_of(pairs@).take(pairs.len() as int) == keys_of(pairs@));
        assert forall|k: int| 0 <= k < out@.len() implies m[#[trigger] out@[k].name@]
            == out@[k].target@ by {
            assert(tag_names(out@)[k] == keys_of(pairs@)[k]);
            lemma_value_for(pairs@, k);
            assert(keys_of(pairs@).contains(pairs@[k].0@));
        }
    }
    out
}

} // verus!
