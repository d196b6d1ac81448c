//! Patch prediction: what a patch file touches, the raw diff inside a
//! mailbox patch, its subjects, and the paths that a failed dry run blames.

use vstd::prelude::*;
use crate::status::string_views;
use crate::text::{
    concat, contains, contains_chars, decimal, decimal_chars, lower_of, lowercase, split_chars,
    split_on, string_from, chars_of, crlf_to_lf, crlf_to_lf_chars, eq_chars, has_prefix, is_blank,
    is_blank_chars, is_ws, is_ws_char, lines, lines_of, slice_of, starts_with, string_of, trim,
    trim_chars, trim_end, views, words, words_of,
};

verus! {

/// The rest of `l` after the prefix `p`, if `l` begins with it.
pub open spec fn after_prefix(l: Seq<char>, p: Seq<char>) -> Option<Seq<char>> {
    if starts_with(l, p) {
        Some(l.subrange(p.len() as int, l.len() as int))
    } else {
        None
    }
}

fn strip_prefix_chars(l: &Vec<char>, p: &str) -> (r: Option<Vec<char>>)
    ensures
        match r {
            Some(rest) => after_prefix(l@, p@) == Some(rest@),
            None => after_prefix(l@, p@) is None,
        },
{
    let pc = chars_of(p);
    if has_prefix(l, &pc) {
        Some(slice_of(l, pc.len(), l.len()))
    } else {
        None
    }
}

/// The path that a `diff --git a/<p> b/<p>` line names: the second word
/// (or the first, if there is one word), without its `a/` or `b/`.
pub open spec fn touched_path(line: Seq<char>) -> Option<Seq<char>> {
    match after_prefix(trim_end(line), "diff --git "@) {
        Some(rest) => {
            let ws = words(rest);
            let a = if ws.len() > 0 {
                ws[0]
            } else {
                seq![]
            };
            let b = if ws.len() > 1 {
                ws[1]
            } else {
                seq![]
            };
            let pick = trim(
                if b.len() > 0 {
                    b
                } else {
                    a
                },
            );
            if starts_with(pick, "a/"@) || starts_with(pick, "b/"@) {
                let p = pick.subrange(2, pick.len() as int);
                if is_blank(p) {
                    None
                } else {
                    Some(p)
                }
            } else {
                None
            }
        },
        None => None,
    }
}

/// The distinct touched paths of the lines, in order of first mention.
pub open spec fn touched_paths(ls: Seq<Seq<char>>) -> Seq<Seq<char>>
    decreases ls.len(),
{
    if ls.len() == 0 {
        seq![]
    } else {
        let r = touched_paths(ls.drop_last());
        match touched_path(ls.last()) {
            Some(p) => if r.contains(p) {
                r
            } else {
                r.push(p)
            },
            None => r,
        }
    }
}

fn trim_end_chars(v: &Vec<char>) -> (r: Vec<char>)
    ensures
        r@ == trim_end(v@),
{
    let mut j: usize = v.len();
    while j > 0 && is_ws_char(v[j - 1])
        invariant
            j <= v.len(),
            forall|k: int| j <= k < v.len() ==> is_ws(#[trigger] v@[k]),
        decreases j,
    {
        j -= 1;
    }
    proof {
        crate::text::lemma_trim_end_prefix(v@, j as int);
    }
    slice_of(v, 0, j)
}

fn touched_path_of(line: &Vec<char>) -> (r: Option<Vec<char>>)
    ensures
        match r {
            Some(p) => touched_path(line@) == Some(p@),
            None => touched_path(line@) is None,
        },
{
    let l = trim_end_chars(line);
    let rest = match strip_prefix_chars(&l, "diff --git ") {
        Some(rest) => rest,
        None => {
            return None;
        },
    };
    let ws = words_of(&rest);
    let a: Vec<char> = if ws.len() > 0 {
        slice_of(&ws[0], 0, ws[0].len())
    } else {
        Vec::new()
    };
    let b: Vec<char> = if ws.len() > 1 {
        slice_of(&ws[1], 0, ws[1].len())
    } else {
        Vec::new()
    };
    proof {
        if ws.len() > 0 {
            assert(views(ws@)[0] == ws@[0]@);
            assert(ws@[0]@.subrange(0, ws@[0]@.len() as int) == ws@[0]@);
        }
        if ws.len() > 1 {
            assert(views(ws@)[1] == ws@[1]@);
            assert(ws@[1]@.subrange(0, ws@[1]@.len() as int) == ws@[1]@);
        }
    }
    let pick = trim_chars(
        &if b.len() > 0 {
            b
        } else {
            a
        },
    );
    let a_prefix = chars_of("a/");
    let b_prefix = chars_of("b/");
    proof {
        reveal_strlit("a/");
        reveal_strlit("b/");
    }
    if has_prefix(&pick, &a_prefix) || has_prefix(&pick, &b_prefix) {
        let p = slice_of(&pick, 2, pick.len());
        if is_blank_chars(&p) {
            None
        } else {
            Some(p)
        }
    } else {
        None
    }
}

fn contains_string(v: &Vec<String>, p: &Vec<char>) -> (r: bool)
    ensures
        r == string_views(v@).contains(p@),
{
    let mut i: usize = 0;
    while i < v.len()
        invariant
            i <= v.len(),
            forall|k: int| 0 <= k < i ==> v@[k]@ != p@,
        decreases v.len() - i,
    {
        if eq_chars(&chars_of(v[i].as_str()), p) {
            proof {
                assert(string_views(v@)[i as int] == p@);
            }
            return true;
        }
        i += 1;
    }
    proof {
        if string_views(v@).contains(p@) {
            let k = choose|k: int| 0 <= k < v@.len() && string_views(v@)[k] == p@;
            assert(v@[k]@ == p@);
        }
    }
    false
}

/// The distinct paths that the `diff --git` headers of a patch name, in
/// order of first mention.
pub fn parse_touched_files_from_patch_text(text: &str) -> (r: Vec<String>)
    ensures
        string_views(r@) == touched_paths(lines(crlf_to_lf(text@))),
{
    let norm = crlf_to_lf_chars(&chars_of(text));
    let ls = lines_of(&norm);
    let ghost lv = views(ls@);
    let mut out: Vec<String> = Vec::new();
    let mut i: usize = 0;
    while i < ls.len()
        invariant
            i <= ls.len(),
            lv == views(ls@),
            string_views(out@) == touched_paths(lv.take(i as int)),
        decreases ls.len() - i,
    {
        proof {
            assert(lv.take(i + 1).drop_last() == lv.take(i as int));
            assert(lv.take(i + 1).last() == ls@[i as int]@);
        }
        match touched_path_of(&ls[i]) {
            Some(p) => {
                if !contains_string(&out, &p) {
                    let ghost before = out@;
                    out.push(string_of(&p));
                    proof {
                        assert(string_views(out@) =~= string_views(before).push(p@));
                    }
                }
            },
            None => {},
        }
        i += 1;
    }
    proof {
        assert(lv.take(ls.len() as int) == lv);
    }
    out
}

/// A line of `s` begins at `i` with `diff --git `.
pub open spec fn is_diff_start(s: Seq<char>, i: int) -> bool {
    &&& 0 <= i <= s.len()
    &&& (i == 0 || s[i - 1] == '\n')
    &&& starts_with(s.subrange(i, s.len() as int), "diff --git "@)
}

/// `i` is where the first line that begins with `diff --git ` starts.
pub open spec fn first_diff_start(s: Seq<char>, i: int) -> bool {
    is_diff_start(s, i) && forall|j: int| 0 <= j < i ==> !is_diff_start(s, j)
}

fn diff_start_at(s: &Vec<char>, i: usize, marker: &Vec<char>) -> (r: bool)
    requires
        i <= s.len(),
        marker@ == "diff --git "@,
    ensures
        r == is_diff_start(s@, i as int),
{
    if i == 0 || s[i - 1] == '\n' {
        let rest = slice_of(s, i, s.len());
        has_prefix(&rest, marker)
    } else {
        false
    }
}

/// The part of `s` from the first line that begins with `diff --git `, or
/// all of `s` when there is none.
pub open spec fn diff_part(s: Seq<char>) -> Seq<char> {
    if exists|i: int| is_diff_start(s, i) {
        let i = choose|i: int| first_diff_start(s, i);
        s.subrange(i, s.len() as int)
    } else {
        s
    }
}

pub proof fn lemma_first_diff_start_unique(s: Seq<char>, i: int)
    requires
        first_diff_start(s, i),
    ensures
        diff_part(s) == s.subrange(i, s.len() as int),
{
    let j = choose|j: int| first_diff_start(s, j);
    assert(first_diff_start(s, j));
    if j < i {
        assert(!is_diff_start(s, j));
    } else if j > i {
        assert(!is_diff_start(s, i));
    }
}

/// The raw diff inside a patch: the newline-normalized text from the first
/// line that begins with `diff --git `, or all of it when there is none.
pub fn extract_diff_part_for_apply_check(text: &str) -> (r: String)
    ensures
        r@ == diff_part(crlf_to_lf(text@)),
{
    let s = crlf_to_lf_chars(&chars_of(text));
    let marker = chars_of("diff --git ");
    let n = s.len();
    let mut i: usize = 0;
    while i < n
        invariant
            i <= n == s.len(),
            marker@ == "diff --git "@,
            s@ == crlf_to_lf(text@),
            forall|j: int| 0 <= j < i ==> !#[trigger] is_diff_start(s@, j),
        decreases n - i,
    {
        if diff_start_at(&s, i, &marker) {
            let r = string_of(&slice_of(&s, i, n));
            proof {
                let k = i as int;
                assert(first_diff_start(s@, k));
                lemma_first_diff_start_unique(s@, k);
            }
            return r;
        }
        i += 1;
    }
    proof {
        reveal_strlit("diff --git ");
        assert forall|k: int| !is_diff_start(s@, k) by {
            if k == n as int {
                assert(s@.subrange(k, n as int).len() == 0);
            }
        }
        assert(!(exists|k: int| is_diff_start(s@, k)));
    }
    string_of(&s)
}

/// The subject that a `Subject:` line gives, without a leading `[PATCH]`
/// unless nothing would be left.
pub open spec fn subject_line(l: Seq<char>) -> Option<Seq<char>> {
    match after_prefix(l, "Subject:"@) {
        Some(rest) => {
            let subj = trim(rest);
            if subj.len() == 0 {
                None
            } else {
                match after_prefix(subj, "[PATCH]"@) {
                    Some(stripped) => if trim(stripped).len() > 0 {
                        Some(trim(stripped))
                    } else {
                        Some(subj)
                    },
                    None => Some(subj),
                }
            }
        },
        None => None,
    }
}

/// The first `max` subjects of the lines, in order.
pub open spec fn patch_subjects(ls: Seq<Seq<char>>, max: nat) -> Seq<Seq<char>>
    decreases ls.len(),
{
    if ls.len() == 0 {
        seq![]
    } else {
        let r = patch_subjects(ls.drop_last(), max);
        if r.len() >= max {
            r
        } else {
            match subject_line(ls.last()) {
                Some(s) => r.push(s),
                None => r,
            }
        }
    }
}

fn subject_line_of(l: &Vec<char>) -> (r: Option<Vec<char>>)
    ensures
        match r {
            Some(s) => subject_line(l@) == Some(s@),
            None => subject_line(l@) is None,
        },
{
    match strip_prefix_chars(l, "Subject:") {
        Some(rest) => {
            let subj = trim_chars(&rest);
            if subj.len() == 0 {
                return None;
            }
            match strip_prefix_chars(&subj, "[PATCH]") {
                Some(stripped) => {
                    let s2 = trim_chars(&stripped);
                    if s2.len() > 0 {
                        Some(s2)
                    } else {
                        Some(subj)
                    }
                },
                None => Some(subj),
            }
        },
        None => None,
    }
}

/// The subjects of the commits in a mailbox patch, at most `max_subjects`.
pub fn parse_patch_subjects(text: &str, max_subjects: usize) -> (r: Vec<String>)
    ensures
        string_views(r@) == patch_subjects(lines(crlf_to_lf(text@)), max_subjects as nat),
{
    let norm = crlf_to_lf_chars(&chars_of(text));
    let ls = lines_of(&norm);
    let ghost lv = views(ls@);
    let mut out: Vec<String> = Vec::new();
    let mut i: usize = 0;
    while i < ls.len()
        invariant
            i <= ls.len(),
            lv == views(ls@),
            string_views(out@) == patch_subjects(lv.take(i as int), max_subjects as nat),
        decreases ls.len() - i,
    {
        proof {
            assert(lv.take(i + 1).drop_last() == lv.take(i as int));
            assert(lv.take(i + 1).last() == ls@[i as int]@);
        }
        if out.len() < max_subjects {
            match subject_line_of(&ls[i]) {
                Some(s) => {
                    let ghost before = out@;
                    out.push(string_of(&s));
                    proof {
                        assert(string_views(out@) =~= string_views(before).push(s@));
                    }
                },
                None => {},
            }
        }
        i += 1;
    }
    proof {
        assert(lv.take(ls.len() as int) == lv);
    }
    out
}

/// The index of the colon that ends the path in a diagnostic: for a
/// Windows drive path `X:\...` or `X:/...` the first colon after the drive,
/// else the first colon.
pub open spec fn path_colon(r: Seq<char>) -> Option<int> {
    let drive = r.len() >= 3 && (r[0] as u32) < 0x80 && r[1] == ':' && (r[2] == '\\' || r[2]
        == '/');
    let from: int = if drive {
        2
    } else {
        0
    };
    if exists|i: int| from <= i < r.len() && r[i] == ':' {
        Some(
            choose|i: int|
                from <= i < r.len() && r[i] == ':' && forall|k: int| from <= k < i ==> r[k] != ':',
        )
    } else {
        None
    }
}

/// The path before the colon of a diagnostic's rest, trimmed, if not empty.
pub open spec fn path_before_colon(s: Seq<char>) -> Option<Seq<char>> {
    let r = trim(s);
    if r.len() == 0 {
        None
    } else {
        match path_colon(r) {
            Some(i) => if trim(r.subrange(0, i)).len() > 0 {
                Some(trim(r.subrange(0, i)))
            } else {
                None
            },
            None => None,
        }
    }
}

pub open spec fn ascii_lower(c: char) -> char {
    if 'A' <= c && c <= 'Z' {
        ((c as u8) + 32) as char
    } else {
        c
    }
}

pub open spec fn no_ws(t: Seq<char>) -> bool {
    forall|i: int| 0 <= i < t.len() ==> !is_ws(#[trigger] t[i])
}

/// `t` is the word `patch` in some mix of ASCII cases.
pub open spec fn is_patch_word(t: Seq<char>) -> bool {
    t.len() == 5 && ascii_lower(t[0]) == 'p' && ascii_lower(t[1]) == 'a' && ascii_lower(t[2])
        == 't' && ascii_lower(t[3]) == 'c' && ascii_lower(t[4]) == 'h'
}

pub open spec fn has_path_char(t: Seq<char>) -> bool {
    exists|i: int| 0 <= i < t.len() && (#[trigger] t[i] == '.' || t[i] == '/' || t[i] == '\\')
}

/// Something that looks like a path: no whitespace, not the word `patch`
/// in any ASCII case, and holding a `.`, `/` or `\`.
pub open spec fn is_candidate_path(p: Seq<char>) -> bool {
    let t = trim(p);
    t.len() > 0 && no_ws(t) && !is_patch_word(t) && has_path_char(t)
}

/// The path that one diagnostic line blames, if any.
pub open spec fn blamed_path(line: Seq<char>) -> Option<Seq<char>> {
    let l0 = trim(line);
    let l = match after_prefix(l0, "git command failed:"@) {
        Some(rest) => trim(rest),
        None => l0,
    };
    let rest = match after_prefix(l, "error: patch failed:"@) {
        Some(r) => Some(trim(r)),
        None => match after_prefix(l, "error:"@) {
            Some(r) => if trim(r).len() == 0 {
                None
            } else {
                Some(trim(r))
            },
            None => None,
        },
    };
    match rest {
        Some(r) => match path_before_colon(r) {
            Some(p) => if is_candidate_path(p) {
                Some(trim(p))
            } else {
                None
            },
            None => None,
        },
        None => None,
    }
}

/// The distinct paths that the diagnostic lines blame, in order.
pub open spec fn blamed_paths(ls: Seq<Seq<char>>) -> Seq<Seq<char>>
    decreases ls.len(),
{
    if ls.len() == 0 {
        seq![]
    } else {
        let r = blamed_paths(ls.drop_last());
        match blamed_path(ls.last()) {
            Some(p) => if r.contains(p) {
                r
            } else {
                r.push(p)
            },
            None => r,
        }
    }
}

fn path_colon_of(r: &Vec<char>) -> (o: Option<usize>)
    ensures
        o matches Some(i) ==> i < r.len(),
        match o {
            Some(i) => path_colon(r@) == Some(i as int),
            None => path_colon(r@) is None,
        },
{
    let drive = r.len() >= 3 && (r[0] as u32) < 0x80 && r[1] == ':' && (r[2] == '\\' || r[2]
        == '/');
    let from: usize = if drive {
        2
    } else {
        0
    };
    let mut i: usize = from;
    while i < r.len()
        invariant
            from <= i <= r.len(),
            from == (if drive { 2usize } else { 0usize }),
            drive == (r@.len() >= 3 && (r@[0] as u32) < 0x80 && r@[1] == ':' && (r@[2] == '\\'
                || r@[2] == '/')),
            forall|k: int| from <= k < i ==> r@[k] != ':',
        decreases r.len() - i,
    {
        if r[i] == ':' {
            proof {
                let c = choose|c: int|
                    from <= c < r@.len() && r@[c] == ':' && forall|k: int|
                        from <= k < c ==> r@[k] != ':';
                assert(from <= c < r@.len() && r@[c] == ':' && forall|k: int|
                    from <= k < c ==> r@[k] != ':');
                if c > i {
                    assert(r@[i as int] == ':');
                }
                assert(c == i);
            }
            return Some(i);
        }
        i += 1;
    }
    None
}

fn path_before_colon_of(s: &Vec<char>) -> (o: Option<Vec<char>>)
    ensures
        match o {
            Some(p) => path_before_colon(s@) == Some(p@),
            None => path_before_colon(s@) is None,
        },
{
    let r = trim_chars(s);
    if r.len() == 0 {
        return None;
    }
    match path_colon_of(&r) {
        Some(i) => {
            let p = trim_chars(&slice_of(&r, 0, i));
            if p.len() > 0 {
                Some(p)
            } else {
                None
            }
        },
        None => None,
    }
}

fn no_ws_of(t: &Vec<char>) -> (r: bool)
    ensures
        r == no_ws(t@),
{
    let mut i: usize = 0;
    while i < t.len()
        invariant
            i <= t.len(),
            forall|k: int| 0 <= k < i ==> !is_ws(#[trigger] t@[k]),
        decreases t.len() - i,
    {
        if is_ws_char(t[i]) {
            return false;
        }
        i += 1;
    }
    true
}

fn ascii_lower_of(c: char) -> (r: char)
    ensures
        r == ascii_lower(c),
{
    if 'A' <= c && c <= 'Z' {
        ((c as u8) + 32) as char
    } else {
        c
    }
}

fn is_patch_word_of(t: &Vec<char>) -> (r: bool)
    ensures
        r == is_patch_word(t@),
{
    t.len() == 5 && ascii_lower_of(t[0]) == 'p' && ascii_lower_of(t[1]) == 'a' && ascii_lower_of(
        t[2],
    ) == 't' && ascii_lower_of(t[3]) == 'c' && ascii_lower_of(t[4]) == 'h'
}

fn has_path_char_of(t: &Vec<char>) -> (r: bool)
    ensures
        r == has_path_char(t@),
{
    let mut j: usize = 0;
    while j < t.len()
        invariant
            j <= t.len(),
            forall|k: int| 0 <= k < j ==> !(#[trigger] t@[k] == '.' || t@[k] == '/' || t@[k] == '\\'),
        decreases t.len() - j,
    {
        if t[j] == '.' || t[j] == '/' || t[j] == '\\' {
            return true;
        }
        j += 1;
    }
    false
}

fn is_candidate_path_of(p: &Vec<char>) -> (r: bool)
    ensures
        r == is_candidate_path(p@),
{
    let t = trim_chars(p);
    t.len() > 0 && no_ws_of(&t) && !is_patch_word_of(&t) && has_path_char_of(&t)
}

fn blamed_path_of(line: &Vec<char>) -> (r: Option<Vec<char>>)
    ensures
        match r {
            Some(p) => blamed_path(line@) == Some(p@),
            None => blamed_path(line@) is None,
        },
{
    let l0 = trim_chars(line);
    let l = match strip_prefix_chars(&l0, "git command failed:") {
        Some(rest) => trim_chars(&rest),
        None => l0,
    };
    let rest: Option<Vec<char>> = match strip_prefix_chars(&l, "error: patch failed:") {
        Some(r) => Some(trim_chars(&r)),
        None => match strip_prefix_chars(&l, "error:") {
            Some(r) => {
                let t = trim_chars(&r);
                if t.len() == 0 {
                    None
                } else {
                    Some(t)
                }
            },
            None => None,
        },
    };
    match rest {
        Some(r) => match path_before_colon_of(&r) {
            Some(p) => if is_candidate_path_of(&p) {
                Some(trim_chars(&p))
            } else {
                None
            },
            None => None,
        },
        None => None,
    }
}

/// The distinct paths that a failed `git apply --check` diagnostic blames,
/// from its `error: patch failed: <path>:<line>` and `error: <path>: ...`
/// lines, in order.
pub fn parse_conflict_files_from_apply_check_message(message: &str) -> (r: Vec<String>)
    ensures
        string_views(r@) == blamed_paths(lines(crlf_to_lf(message@))),
{
    let norm = crlf_to_lf_chars(&chars_of(message));
    let ls = lines_of(&norm);
    let ghost lv = views(ls@);
    let mut out: Vec<String> = Vec::new();
    let mut i: usize = 0;
    while i < ls.len()
        invariant
            i <= ls.len(),
            lv == views(ls@),
            string_views(out@) == blamed_paths(lv.take(i as int)),
        decreases ls.len() - i,
    {
        proof {
            assert(lv.take(i + 1).drop_last() == lv.take(i as int));
            assert(lv.take(i + 1).last() == ls@[i as int]@);
        }
        match blamed_path_of(&ls[i]) {
            Some(p) => {
                if !contains_string(&out, &p) {
                    let ghost before = out@;
                    out.push(string_of(&p));
                    proof {
                        assert(string_views(out@) =~= string_views(before).push(p@));
                    }
                }
            },
            None => {},
        }
        i += 1;
    }
    proof {
        assert(lv.take(ls.len() as int) == lv);
    }
    out
}

/// One commit of the history graph.
pub struct GitCommit {
    pub hash: String,
    pub parents: Vec<String>,
    pub author: String,
    pub author_email: String,
    pub date: String,
    pub subject: String,
    pub refs: String,
    pub is_head: bool,
}

/// The value of a [`GitCommit`].
pub struct CommitView {
    pub hash: Seq<char>,
    pub parents: Seq<Seq<char>>,
    pub author: Seq<char>,
    pub author_email: Seq<char>,
    pub date: Seq<char>,
    pub subject: Seq<char>,
    pub refs: Seq<char>,
    pub is_head: bool,
}

impl View for GitCommit {
    type V = CommitView;

    open spec fn view(&self) -> CommitView {
        CommitView {
            hash: self.hash@,
            parents: string_views(self.parents@),
            author: self.author@,
            author_email: self.author_email@,
            date: self.date@,
            subject: self.subject@,
            refs: self.refs@,
            is_head: self.is_head,
        }
    }
}

pub open spec fn commit_views(v: Seq<GitCommit>) -> Seq<CommitView> {
    v.map_values(|c: GitCommit| c@)
}

/// Field `k` of a record, empty where the record has fewer fields.
pub open spec fn field(parts: Seq<Seq<char>>, k: int) -> Seq<char> {
    if 0 <= k < parts.len() {
        parts[k]
    } else {
        seq![]
    }
}

/// The commit that one `%H %P %an %ae %ad %s %D` record (fields split by
/// U+001F) describes, unless its hash is empty; `keep_refs` keeps the
/// trimmed decorations.
pub open spec fn log_record(rec: Seq<char>, head: Seq<char>, keep_refs: bool) -> Option<CommitView> {
    let r = trim(rec);
    let parts = split_on(r, '\u{1f}');
    let hash = field(parts, 0);
    if r.len() == 0 || hash.len() == 0 {
        None
    } else {
        Some(
            CommitView {
                hash,
                parents: words(field(parts, 1)),
                author: field(parts, 2),
                author_email: field(parts, 3),
                date: field(parts, 4),
                subject: field(parts, 5),
                refs: if keep_refs {
                    trim(field(parts, 6))
                } else {
                    seq![]
                },
                is_head: trim(head) == hash,
            },
        )
    }
}

/// The commits of the records (split by U+001E), in order.
pub open spec fn log_records(recs: Seq<Seq<char>>, head: Seq<char>, keep_refs: bool) -> Seq<CommitView>
    decreases recs.len(),
{
    if recs.len() == 0 {
        seq![]
    } else {
        let r = log_records(recs.drop_last(), head, keep_refs);
        match log_record(recs.last(), head, keep_refs) {
            Some(c) => r.push(c),
            None => r,
        }
    }
}

fn field_of(parts: &Vec<Vec<char>>, k: usize) -> (r: Vec<char>)
    ensures
        r@ == field(views(parts@), k as int),
{
    if k < parts.len() {
        let r = slice_of(&parts[k], 0, parts[k].len());
        proof {
            assert(parts@[k as int]@.subrange(0, parts@[k as int]@.len() as int) == parts@[k as int]@);
        }
        r
    } else {
        Vec::new()
    }
}

fn strings_of(v: &Vec<Vec<char>>) -> (r: Vec<String>)
    ensures
        string_views(r@) == views(v@),
{
    let mut out: Vec<String> = Vec::new();
    let mut i: usize = 0;
    while i < v.len()
        invariant
            i <= v.len(),
            string_views(out@) == views(v@).take(i as int),
        decreases v.len() - i,
    {
        let ghost before = out@;
        out.push(string_of(&v[i]));
        proof {
            assert(string_views(out@) =~= string_views(before).push(v@[i as int]@));
            assert(views(v@).take(i + 1) =~= views(v@).take(i as int).push(v@[i as int]@));
        }
        i += 1;
    }
    proof {
        assert(views(v@).take(v.len() as int) == views(v@));
    }
    out
}

fn log_record_of(rec: &Vec<char>, head: &Vec<char>, keep_refs: bool) -> (r: Option<GitCommit>)
    requires
        head@ == trim(head@),
    ensures
        match r {
            Some(c) => log_record(rec@, head@, keep_refs) == Some(c@),
            None => log_record(rec@, head@, keep_refs) is None,
        },
{
    let r = trim_chars(rec);
    let parts = split_chars(&r, '\u{1f}');
    let hash = field_of(&parts, 0);
    if r.len() == 0 || hash.len() == 0 {
        return None;
    }
    let parents = strings_of(&words_of(&field_of(&parts, 1)));
    let refs = if keep_refs {
        trim_chars(&field_of(&parts, 6))
    } else {
        Vec::new()
    };
    let is_head = eq_chars(head, &hash);
    proof {
        crate::text::lemma_trim_idempotent(head@);
    }
    Some(
        GitCommit {
            hash: string_of(&hash),
            parents,
            author: string_of(&field_of(&parts, 2)),
            author_email: string_of(&field_of(&parts, 3)),
            date: string_of(&field_of(&parts, 4)),
            subject: string_of(&field_of(&parts, 5)),
            refs: string_of(&refs),
            is_head,
        },
    )
}

/// Parses `git log` records; `head` is the output of `git rev-parse HEAD`
/// and marks the head commit.  The decorations are kept only when
/// `keep_refs` is set.
pub fn parse_log_records(head: &str, stdout: &str, keep_refs: bool) -> (r: Vec<GitCommit>)
    ensures
        commit_views(r@) == log_records(split_on(stdout@, '\u{1e}'), head@, keep_refs),
{
    let h = trim_chars(&chars_of(head));
    proof {
        crate::text::lemma_trim_idempotent(head@);
    }
    let recs = split_chars(&chars_of(stdout), '\u{1e}');
    let ghost rs = views(recs@);
    let mut out: Vec<GitCommit> = Vec::new();
    let mut i: usize = 0;
    while i < recs.len()
        invariant
            i <= recs.len(),
            rs == views(recs@),
            h@ == trim(head@),
            h@ == trim(h@),
            commit_views(out@) == log_records(rs.take(i as int), head@, keep_refs),
        decreases recs.len() - i,
    {
        proof {
            assert(rs.take(i + 1).drop_last() == rs.take(i as int));
            assert(rs.take(i + 1).last() == recs@[i as int]@);
        }
        match log_record_of(&recs[i], &h, keep_refs) {
            Some(c) => {
                let ghost before = out@;
                let ghost cv = c@;
                out.push(c);
                proof {
                    assert(commit_views(out@) =~= commit_views(before).push(cv));
                }
            },
            None => {},
        }
        i += 1;
    }
    proof {
        assert(rs.take(recs.len() as int) == rs);
    }
    out
}

/// Parses `git log` records without their decorations.
pub fn parse_git_log_records(head: &str, stdout: &str) -> (r: Vec<GitCommit>)
    ensures
        commit_views(r@) == log_records(split_on(stdout@, '\u{1e}'), head@, false),
{
    parse_log_records(head, stdout, false)
}

/// A `git log` failure that only says there is no history to show.
pub open spec fn empty_history_error(stderr: Seq<char>) -> bool {
    empty_history_lowered(lower_of(stderr))
}

/// The lowercased diagnostic says there is no history to show.
pub open spec fn empty_history_lowered(l: Seq<char>) -> bool {
    ||| contains(l, "does not have any commits yet"@)
    ||| contains(l, "does not have any commits"@)
    ||| contains(l, "your current branch"@)
    ||| contains(l, "unknown revision"@)
}

/// Whether a lowercased `git log` diagnostic says there is no history.
pub fn is_empty_history_lowered(l: &str) -> (r: bool)
    ensures
        r == empty_history_lowered(l@),
{
    let v = chars_of(l);
    contains_chars(&v, &chars_of("does not have any commits yet")) || contains_chars(
        &v,
        &chars_of("does not have any commits"),
    ) || contains_chars(&v, &chars_of("your current branch")) || contains_chars(
        &v,
        &chars_of("unknown revision"),
    )
}

fn empty_history_error_of(stderr: &str) -> (r: bool)
    ensures
        r == empty_history_error(stderr@),
{
    is_empty_history_lowered(lowercase(stderr).as_str())
}

/// The commits that a `git log` run gave: its records when it succeeded,
/// none when it failed only for want of history, else an error that
/// carries its diagnostic.
pub fn git_log_commits_multi(success: bool, stdout: &str, stderr: &str, head: &str) -> (r: Result<
    Vec<GitCommit>,
    String,
>)
    ensures
        success ==> (r matches Ok(v) && commit_views(v@) == log_records(
            split_on(stdout@, '\u{1e}'),
            head@,
            false,
        )),
        !success && empty_history_error(stderr@) ==> (r matches Ok(v) && v@.len() == 0),
        !success && !empty_history_error(stderr@) ==> (r matches Err(e) && e@ == "git log failed: "@
            + stderr@),
{
    if success {
        return Ok(parse_git_log_records(head, stdout));
    }
    if empty_history_error_of(stderr) {
        return Ok(Vec::new());
    }
    Err(string_of(&concat(&chars_of("git log failed: "), &chars_of(stderr))))
}

/// How a patch is applied: as a raw diff, or as mailbox commits.
#[derive(PartialEq, Eq, Structural, Clone, Copy, Debug)]
pub enum PatchMethod {
    Apply,
    Mailbox,
}

/// The method that a lowercased, trimmed method word names.
pub open spec fn method_word(l: Seq<char>) -> Option<PatchMethod> {
    if l == "apply"@ {
        Some(PatchMethod::Apply)
    } else if l == "am"@ {
        Some(PatchMethod::Mailbox)
    } else {
        None
    }
}

/// The method that a method word names: `apply` or `am`, compared without
/// case and surrounding whitespace.
pub open spec fn patch_method_of(m: Seq<char>) -> Option<PatchMethod> {
    method_word(lower_of(trim(m)))
}

/// Reads a method word that is already lowercased and trimmed.
pub fn patch_method_of_lowered(l: &str) -> (r: Option<PatchMethod>)
    ensures
        r == method_word(l@),
{
    let v = chars_of(l);
    if crate::text::eq_str(&v, "apply") {
        Some(PatchMethod::Apply)
    } else if crate::text::eq_str(&v, "am") {
        Some(PatchMethod::Mailbox)
    } else {
        None
    }
}

pub fn parse_patch_method(m: &str) -> (r: Result<PatchMethod, String>)
    ensures
        match patch_method_of(m@) {
            Some(pm) => r == Ok::<PatchMethod, String>(pm),
            None => r matches Err(e) && e@ == "method must be 'apply' or 'am'"@,
        },
{
    let t = string_of(&trim_chars(&chars_of(m)));
    let l = lowercase(t.as_str());
    match patch_method_of_lowered(l.as_str()) {
        Some(pm) => Ok(pm),
        None => Err(string_from("method must be 'apply' or 'am'")),
    }
}

/// The payload of the dry run: the raw diff of a mailbox patch, the text
/// of a plain one.
pub fn check_payload(text: &str, method: PatchMethod) -> (r: String)
    ensures
        method == PatchMethod::Apply ==> r@ == text@,
        method == PatchMethod::Mailbox ==> r@ == diff_part(crlf_to_lf(text@)),
{
    match method {
        PatchMethod::Apply => string_from(text),
        PatchMethod::Mailbox => extract_diff_part_for_apply_check(text),
    }
}

pub open spec fn mailbox_busy_error() -> Seq<char> {
    "A previous 'git am' (or rebase) is still in progress. Resolve it first (Continue or Abort), or run: git am --abort (or git rebase --abort)."@
}

/// Refuses a mailbox apply while an earlier one is under way (its
/// `rebase-apply` directory is still there) or while any rebase is in
/// flight (`REBASE_HEAD` resolves or a `rebase-merge` directory exists).
pub fn mailbox_apply_guard(apply_dir_exists: bool, rebase_in_progress: bool) -> (r: Result<(), String>)
    ensures
        (apply_dir_exists || rebase_in_progress) <==> r is Err,
        r matches Err(e) ==> e@ == mailbox_busy_error(),
{
    if apply_dir_exists || rebase_in_progress {
        Err(
            string_from(
                "A previous 'git am' (or rebase) is still in progress. Resolve it first (Continue or Abort), or run: git am --abort (or git rebase --abort).",
            ),
        )
    } else {
        Ok(())
    }
}

/// The outcome of a patch prediction.
pub struct GitPatchPredictResult {
    pub ok: bool,
    pub message: String,
    pub files: Vec<String>,
}

/// The prediction message for the dry run: its output, or `ok` when it
/// printed nothing.
pub open spec fn check_message(check: Result<Seq<char>, Seq<char>>) -> Seq<char> {
    match check {
        Ok(m) => if is_blank(m) {
            "ok"@
        } else {
            m
        },
        Err(e) => e,
    }
}

pub open spec fn check_view(check: Result<String, String>) -> Result<Seq<char>, Seq<char>> {
    match check {
        Ok(m) => Ok(m@),
        Err(e) => Err(e@),
    }
}

/// The prediction for a patch that touches `files`, from the result of
/// `git apply --check` on its payload.
pub fn patch_prediction(check: Result<String, String>, files: Vec<String>) -> (r: GitPatchPredictResult)
    ensures
        r.ok == check is Ok,
        r.message@ == check_message(check_view(check)),
        string_views(r.files@) == string_views(files@),
{
    match check {
        Ok(m) => {
            let blank = is_blank_chars(&chars_of(m.as_str()));
            GitPatchPredictResult {
                ok: true,
                message: if blank {
                    string_from("ok")
                } else {
                    m
                },
                files,
            }
        },
        Err(e) => GitPatchPredictResult { ok: false, message: e, files },
    }
}

/// The paths that a failed dry run blames; none when it succeeded.
pub fn predicted_conflicts(check: &Result<String, String>) -> (r: Vec<String>)
    ensures
        match check {
            Ok(_) => r@.len() == 0,
            Err(e) => string_views(r@) == blamed_paths(lines(crlf_to_lf(e@))),
        },
{
    match check {
        Ok(_) => Vec::new(),
        Err(e) => parse_conflict_files_from_apply_check_message(e.as_str()),
    }
}

/// The name of the branch `HEAD` is on, from `git symbolic-ref --short HEAD`
/// output (`None` when it failed: a detached head).
pub fn head_name_of(out: Option<&str>) -> (r: String)
    ensures
        out is None ==> r@ == "(detached)"@,
        out matches Some(o) ==> r@ == trim(o@),
{
    match out {
        Some(o) => string_of(&trim_chars(&chars_of(o))),
        None => string_from("(detached)"),
    }
}

/// The id of the `k`-th predicted mailbox commit, `predict:am:<k>`.
pub open spec fn am_node_id(k: nat) -> Seq<char> {
    "predict:am:"@ + decimal(k)
}

/// A predicted commit: author `(predict)`, no email, date or refs.
pub open spec fn predicted_node(hash: Seq<char>, parent: Seq<char>, subject: Seq<char>) -> CommitView {
    CommitView {
        hash,
        parents: if is_blank(parent) {
            seq![]
        } else {
            seq![parent]
        },
        author: "(predict)"@,
        author_email: seq![],
        date: seq![],
        subject,
        refs: seq![],
        is_head: false,
    }
}

/// The subjects that the predicted mailbox commits carry.
pub open spec fn am_subjects(subjects: Seq<Seq<char>>) -> Seq<Seq<char>> {
    if subjects.len() == 0 {
        seq!["Apply patch (am)"@]
    } else {
        subjects
    }
}

/// The commits that applying the patch would add on top of `local_head`:
/// one per mailbox subject, chained, or one working-tree commit for a plain
/// diff; none without a head.
pub open spec fn predicted_nodes(method: PatchMethod, subjects: Seq<Seq<char>>, local_head: Seq<char>) -> Seq<
    CommitView,
> {
    if is_blank(local_head) {
        seq![]
    } else {
        match method {
            PatchMethod::Mailbox => {
                let subs = am_subjects(subjects);
                Seq::new(
                    subs.len(),
                    |i: int|
                        predicted_node(
                            am_node_id((i + 1) as nat),
                            if i == 0 {
                                local_head
                            } else {
                                am_node_id(i as nat)
                            },
                            subs[i],
                        ),
                )
            },
            PatchMethod::Apply => seq![
                predicted_node("predict:apply"@, local_head, "Apply patch (working tree)"@),
            ],
        }
    }
}

fn predicted_commit(hash: Vec<char>, parent: &Vec<char>, subject: Vec<char>) -> (r: GitCommit)
    ensures
        r@ == predicted_node(hash@, parent@, subject@),
{
    let parents: Vec<String> = if is_blank_chars(parent) {
        Vec::new()
    } else {
        vec![string_of(parent)]
    };
    let r = GitCommit {
        hash: string_of(&hash),
        parents,
        author: string_from("(predict)"),
        author_email: String::new(),
        date: String::new(),
        subject: string_of(&subject),
        refs: String::new(),
        is_head: false,
    };
    proof {
        assert(string_views(r.parents@) =~= predicted_node(hash@, parent@, subject@).parents);
    }
    r
}

fn am_node_id_of(k: usize) -> (r: Vec<char>)
    ensures
        r@ == am_node_id(k as nat),
{
    concat(&chars_of("predict:am:"), &decimal_chars(k as u64))
}

/// The predicted commits of a patch (see [`predicted_nodes`]).
pub fn predicted_commits(method: PatchMethod, subjects: &Vec<String>, local_head: &str) -> (r: Vec<
    GitCommit,
>)
    ensures
        commit_views(r@) == predicted_nodes(method, string_views(subjects@), local_head@),
{
    let head = chars_of(local_head);
    let mut out: Vec<GitCommit> = Vec::new();
    if is_blank_chars(&head) {
        proof {
            assert(commit_views(out@) =~= seq![]);
        }
        return out;
    }
    match method {
        PatchMethod::Apply => {
            out.push(
                predicted_commit(
                    chars_of("predict:apply"),
                    &head,
                    chars_of("Apply patch (working tree)"),
                ),
            );
            proof {
                assert(commit_views(out@) =~= predicted_nodes(
                    method,
                    string_views(subjects@),
                    local_head@,
                ));
            }
            out
        },
        PatchMethod::Mailbox => {
            let subs: Vec<String> = if subjects.len() == 0 {
                vec![string_from("Apply patch (am)")]
            } else {
                subjects.clone()
            };
            let ghost sv = am_subjects(string_views(subjects@));
            proof {
                if subjects.len() == 0 {
                    assert(string_views(subs@) =~= sv);
                } else {
                    assert(string_views(subs@) =~= sv);
                }
            }
            let mut i: usize = 0;
            let mut last_parent = head;
            while i < subs.len()
                invariant
                    i <= subs.len(),
                    string_views(subs@) == sv,
                    !is_blank(local_head@),
                    last_parent@ == if i == 0 {
                        local_head@
                    } else {
                        am_node_id(i as nat)
                    },
                    commit_views(out@) =~= Seq::new(
                        i as nat,
                        |j: int|
                            predicted_node(
                                am_node_id((j + 1) as nat),
                                if j == 0 {
                                    local_head@
                                } else {
                                    am_node_id(j as nat)
                                },
                                sv[j],
                            ),
                    ),
                decreases subs.len() - i,
            {
                let id = am_node_id_of(i + 1);
                let ghost before = out@;
                let c = predicted_commit(
                    slice_of(&id, 0, id.len()),
                    &last_parent,
                    chars_of(subs[i].as_str()),
                );
                proof {
                    assert(id@.subrange(0, id@.len() as int) == id@);
                    assert(sv[i as int] == subs@[i as int]@);
                }
                let ghost cv = c@;
                out.push(c);
                proof {
                    assert(commit_views(out@) =~= commit_views(before).push(cv));
                }
                last_parent = id;
                i += 1;
            }
            out
        },
    }
}

/// How many log commits the graph has room for: the requested size
/// (60 by default, kept within 10 and 200) less the predicted commits.
pub open spec fn log_room(max_commits: Option<u32>, predicted: nat) -> nat {
    let m: int = match max_commits {
        Some(m) => m as int,
        None => 60,
    };
    let c: int = if m < 10 {
        10
    } else if m > 200 {
        200
    } else {
        m
    };
    if c > predicted {
        (c - predicted) as nat
    } else {
        0
    }
}

pub fn remaining_log_count(max_commits: Option<u32>, predicted: usize) -> (r: u32)
    ensures
        r == log_room(max_commits, predicted as nat),
{
    let m: u32 = match max_commits {
        Some(m) => m,
        None => 60,
    };
    let c: u32 = if m < 10 {
        10
    } else if m > 200 {
        200
    } else {
        m
    };
    if (c as usize) > predicted {
        c - (predicted as u32)
    } else {
        0
    }
}

/// The refs text of the predicted head: `HEAD -> <branch>`, or `HEAD`
/// when the branch name is blank.
pub open spec fn head_refs(head_name: Seq<char>) -> Seq<char> {
    if is_blank(head_name) {
        "HEAD"@
    } else {
        "HEAD -> "@ + head_name
    }
}

/// Marks the predicted head in the graph: it alone is the head and carries
/// the refs text; every other commit carries none.
pub fn finish_prediction_graph(commits: Vec<GitCommit>, predicted_head: &String, head_name: &String) -> (r:
    Vec<GitCommit>)
    ensures
        r@.len() == commits@.len(),
        forall|i: int|
            0 <= i < r@.len() ==> {
                let c = #[trigger] r@[i]@;
                let o = commits@[i]@;
                &&& c.hash == o.hash && c.parents == o.parents && c.author == o.author
                &&& c.author_email == o.author_email && c.date == o.date && c.subject == o.subject
                &&& c.is_head == (o.hash == predicted_head@)
                &&& c.refs == if c.is_head {
                    head_refs(head_name@)
                } else {
                    seq![]
                }
            },
{
    let n = commits.len();
    let mut out: Vec<GitCommit> = Vec::new();
    let hn = chars_of(head_name.as_str());
    let refs_text: Vec<char> = if is_blank_chars(&hn) {
        chars_of("HEAD")
    } else {
        concat(&chars_of("HEAD -> "), &hn)
    };
    let mut i: usize = 0;
    while i < n
        invariant
            i <= n == commits.len(),
            out@.len() == i,
            refs_text@ == head_refs(head_name@),
            forall|k: int|
                0 <= k < i ==> {
                    let c = #[trigger] out@[k]@;
                    let o = commits@[k]@;
                    &&& c.hash == o.hash && c.parents == o.parents && c.author == o.author
                    &&& c.author_email == o.author_email && c.date == o.date && c.subject
                        == o.subject
                    &&& c.is_head == (o.hash == predicted_head@)
                    &&& c.refs == if c.is_head {
                        head_refs(head_name@)
                    } else {
                        seq![]
                    }
                },
        decreases n - i,
    {
        let o = &commits[i];
        let is_head = o.hash == *predicted_head;
        let c = GitCommit {
            hash: o.hash.clone(),
            parents: o.parents.clone(),
            author: o.author.clone(),
            author_email: o.author_email.clone(),
            date: o.date.clone(),
            subject: o.subject.clone(),
            refs: if is_head {
                string_of(&refs_text)
            } else {
                String::new()
            },
            is_head,
        };
        proof {
            assert(string_views(c.parents@) =~= string_views(o.parents@));
        }
        out.push(c);
        i += 1;
    }
    out
}

} // verus!
