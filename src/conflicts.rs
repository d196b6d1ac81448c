//! The conflict state machine: which composite operation is under way,
//! which paths are unmerged, and the parsers for the outputs it reads.

use vstd::prelude::*;
use crate::status::{names_rename, string_views};
use crate::text::{
    chars_of, decode_lossy, is_blank, is_blank_chars, opt_view, parse_u8, parse_u8_chars,
    slice_of, split_chars, split_on, string_of, trim, trim_chars, utf8_lossy, views, words,
    words_of, find_char,
};

verus! {

/// The composite operation that a repository is in the middle of.
#[derive(PartialEq, Eq, Structural, Clone, Copy, Debug)]
pub enum ConflictOperation {
    Idle,
    Merge,
    Rebase,
    CherryPick,
    MailboxApply,
}

/// What the sentinel probes found: the mailbox-apply `applying` marker and
/// whether `REBASE_HEAD`, `MERGE_HEAD` and `CHERRY_PICK_HEAD` resolve.
#[derive(PartialEq, Eq, Structural, Clone, Copy, Debug)]
pub struct OperationProbe {
    pub applying_marker: bool,
    pub rebase_head: bool,
    pub merge_head: bool,
    pub cherry_pick_head: bool,
}

/// The operation under way, checked in a fixed order: mailbox apply, rebase,
/// merge, cherry-pick.
pub open spec fn operation_of(p: OperationProbe) -> ConflictOperation {
    if p.applying_marker {
        ConflictOperation::MailboxApply
    } else if p.rebase_head {
        ConflictOperation::Rebase
    } else if p.merge_head {
        ConflictOperation::Merge
    } else if p.cherry_pick_head {
        ConflictOperation::CherryPick
    } else {
        ConflictOperation::Idle
    }
}

pub fn detect_conflict_operation(p: OperationProbe) -> (r: ConflictOperation)
    ensures
        r == operation_of(p),
{
    if p.applying_marker {
        ConflictOperation::MailboxApply
    } else if p.rebase_head {
        ConflictOperation::Rebase
    } else if p.merge_head {
        ConflictOperation::Merge
    } else if p.cherry_pick_head {
        ConflictOperation::CherryPick
    } else {
        ConflictOperation::Idle
    }
}

/// The name that the client shows for an operation.
pub open spec fn operation_name(op: ConflictOperation) -> Seq<char> {
    match op {
        ConflictOperation::Idle => seq![],
        ConflictOperation::Merge => seq!['m', 'e', 'r', 'g', 'e'],
        ConflictOperation::Rebase => seq!['r', 'e', 'b', 'a', 's', 'e'],
        ConflictOperation::CherryPick => seq![
            'c',
            'h',
            'e',
            'r',
            'r',
            'y',
            '-',
            'p',
            'i',
            'c',
            'k',
        ],
        ConflictOperation::MailboxApply => seq!['a', 'm'],
    }
}

impl ConflictOperation {
    pub fn name(&self) -> (r: String)
        ensures
            r@ == operation_name(*self),
    {
        let v: Vec<char> = match self {
            ConflictOperation::Idle => vec![],
            ConflictOperation::Merge => vec!['m', 'e', 'r', 'g', 'e'],
            ConflictOperation::Rebase => vec!['r', 'e', 'b', 'a', 's', 'e'],
            ConflictOperation::CherryPick => vec![
                'c',
                'h',
                'e',
                'r',
                'r',
                'y',
                '-',
                'p',
                'i',
                'c',
                'k',
            ],
            ConflictOperation::MailboxApply => vec!['a', 'm'],
        };
        proof {
            assert(v@ =~= operation_name(*self));
        }
        string_of(&v)
    }
}

/// The reference that holds the incoming side: the first of `MERGE_HEAD`,
/// `CHERRY_PICK_HEAD` and `REBASE_HEAD` that resolves.
pub open spec fn theirs_ref_of(merge_head: bool, cherry_pick_head: bool, rebase_head: bool) -> Option<
    Seq<char>,
> {
    if merge_head {
        Some("MERGE_HEAD"@)
    } else if cherry_pick_head {
        Some("CHERRY_PICK_HEAD"@)
    } else if rebase_head {
        Some("REBASE_HEAD"@)
    } else {
        None
    }
}

pub fn detect_theirs_ref(merge_head: bool, cherry_pick_head: bool, rebase_head: bool) -> (r: Option<
    String,
>)
    ensures
        opt_view(r) == theirs_ref_of(merge_head, cherry_pick_head, rebase_head),
{
    if merge_head {
        Some(crate::text::string_from("MERGE_HEAD"))
    } else if cherry_pick_head {
        Some(crate::text::string_from("CHERRY_PICK_HEAD"))
    } else if rebase_head {
        Some(crate::text::string_from("REBASE_HEAD"))
    } else {
        None
    }
}

/// The (path, status) pairs of NUL-separated porcelain status records; a
/// rename or copy record is followed by a record that is skipped.
pub open spec fn porcelain_pairs(toks: Seq<Seq<char>>) -> Seq<(Seq<char>, Seq<char>)>
    decreases toks.len(),
{
    if toks.len() == 0 {
        seq![]
    } else {
        let rec = toks[0];
        if rec.len() < 4 {
            porcelain_pairs(toks.drop_first())
        } else {
            let first = rec.subrange(3, rec.len() as int);
            let here = if is_blank(first) {
                seq![]
            } else {
                seq![(first, rec.subrange(0, 2))]
            };
            let rest = if !names_rename(rec) {
                toks.drop_first()
            } else if toks.len() > 1 {
                toks.subrange(2, toks.len() as int)
            } else {
                seq![]
            };
            here + porcelain_pairs(rest)
        }
    }
}

pub open spec fn pair_views(v: Seq<(String, String)>) -> Seq<(Seq<char>, Seq<char>)> {
    v.map_values(|p: (String, String)| (p.0@, p.1@))
}

/// The value of the last pair whose key is `k`.
pub open spec fn last_value(ps: Seq<(Seq<char>, Seq<char>)>, k: Seq<char>) -> Option<Seq<char>>
    decreases ps.len(),
{
    if ps.len() == 0 {
        None
    } else if ps.last().0 == k {
        Some(ps.last().1)
    } else {
        last_value(ps.drop_last(), k)
    }
}

/// Parses `git status --porcelain -z` output into (path, status) pairs, in
/// output order; a later pair for a path overrides an earlier one.
pub fn parse_status_porcelain_z(stdout: &[u8]) -> (r: Vec<(String, String)>)
    ensures
        pair_views(r@) == porcelain_pairs(split_on(utf8_lossy(stdout@), '\0')),
{
    let text = decode_lossy(stdout);
    parse_status_porcelain_text(text.as_str())
}

/// Parses decoded `git status --porcelain -z` output into (path, status)
/// pairs.
pub fn parse_status_porcelain_text(text: &str) -> (r: Vec<(String, String)>)
    ensures
        pair_views(r@) == porcelain_pairs(split_on(text@, '\0')),
{
    let chars = chars_of(text);
    let toks = split_chars(&chars, '\0');
    let ghost ts = views(toks@);
    let n = toks.len();
    let mut out: Vec<(String, String)> = Vec::new();
    let mut i: usize = 0;
    proof {
        assert(ts.subrange(0, n as int) == ts);
        assert(pair_views(out@) =~= seq![]);
    }
    while i < n
        invariant
            i <= n == toks.len(),
            ts == views(toks@),
            pair_views(out@) + porcelain_pairs(ts.subrange(i as int, n as int)) == porcelain_pairs(
                ts,
            ),
        decreases n - i,
    {
        let ghost tail = ts.subrange(i as int, n as int);
        let ghost before = out@;
        let rec = &toks[i];
        proof {
            assert(tail[0] == rec@);
            assert(tail.drop_first() == ts.subrange(i + 1, n as int));
        }
        if rec.len() < 4 {
            i += 1;
        } else {
            let first = slice_of(rec, 3, rec.len());
            if !is_blank_chars(&first) {
                let status = string_of(&slice_of(rec, 0, 2));
                out.push((string_of(&first), status));
            }
            proof {
                assert(pair_views(out@) =~= pair_views(before) + (if is_blank(first@) {
                    seq![]
                } else {
                    seq![(first@, rec@.subrange(0, 2))]
                }));
            }
            if rec[0] == 'R' || rec[1] == 'R' || rec[0] == 'C' || rec[1] == 'C' {
                proof {
                    if i + 1 < n {
                        assert(tail.subrange(2, tail.len() as int) == ts.subrange(
                            i + 2,
                            n as int,
                        ));
                    } else {
                        assert(ts.subrange(n as int, n as int) =~= seq![]);
                    }
                }
                i = if i + 1 < n {
                    i + 2
                } else {
                    n
                };
            } else {
                i += 1;
            }
        }
    }
    proof {
        assert(ts.subrange(n as int, n as int) =~= seq![]);
    }
    out
}

/// The value of the last pair whose key is `key`.
pub fn lookup_last(pairs: &Vec<(String, String)>, key: &String) -> (r: Option<String>)
    ensures
        opt_view(r) == last_value(pair_views(pairs@), key@),
{
    let ghost ps = pair_views(pairs@);
    let mut i: usize = pairs.len();
    proof {
        assert(ps.take(pairs.len() as int) == ps);
    }
    while i > 0
        invariant
            i <= pairs.len(),
            ps == pair_views(pairs@),
            last_value(ps, key@) == last_value(ps.take(i as int), key@),
        decreases i,
    {
        let ghost t = ps.take(i as int);
        proof {
            assert(t.last() == (pairs@[i - 1].0@, pairs@[i - 1].1@));
            assert(t.drop_last() == ps.take(i - 1));
        }
        if pairs[i - 1].0 == *key {
            return Some(pairs[i - 1].1.clone());
        }
        i -= 1;
    }
    None
}

/// The (path, stage) pair that one `git ls-files -u -z` record
/// `<mode> <object> <stage>\t<path>` names; stage 0 and unreadable stages
/// name none.
pub open spec fn unmerged_record(rec: Seq<char>) -> Option<(Seq<char>, u8)> {
    if exists|t: int| 0 <= t < rec.len() && rec[t] == '\t' {
        let t = choose|t: int|
            0 <= t < rec.len() && rec[t] == '\t' && forall|u: int| 0 <= u < t ==> rec[u] != '\t';
        let path = rec.subrange(t + 1, rec.len() as int);
        let meta = words(rec.subrange(0, t));
        if is_blank(path) || meta.len() < 3 {
            None
        } else {
            match parse_u8(trim(meta[2])) {
                Some(s) => if s == 0 {
                    None
                } else {
                    Some((path, s))
                },
                None => None,
            }
        }
    } else {
        None
    }
}

/// The (path, stage) pairs of a sequence of records, in order.
pub open spec fn unmerged_pairs(recs: Seq<Seq<char>>) -> Seq<(Seq<char>, u8)>
    decreases recs.len(),
{
    if recs.len() == 0 {
        seq![]
    } else {
        let r = unmerged_pairs(recs.drop_last());
        match unmerged_record(recs.last()) {
            Some(p) => r.push(p),
            None => r,
        }
    }
}

pub open spec fn stage_views(v: Seq<(String, u8)>) -> Seq<(Seq<char>, u8)> {
    v.map_values(|p: (String, u8)| (p.0@, p.1))
}

fn unmerged_record_parse(rec: &Vec<char>) -> (r: Option<(String, u8)>)
    ensures
        match r {
            Some(p) => unmerged_record(rec@) == Some((p.0@, p.1)),
            None => unmerged_record(rec@) is None,
        },
{
    match find_char(rec, '\t') {
        Some(t) => {
            proof {
                let c = choose|c: int|
                    0 <= c < rec@.len() && rec@[c] == '\t' && forall|u: int|
                        0 <= u < c ==> rec@[u] != '\t';
                assert(0 <= c < rec@.len() && rec@[c] == '\t' && forall|u: int|
                    0 <= u < c ==> rec@[u] != '\t');
                if c > t {
                    assert(rec@[t as int] == '\t');
                }
                assert(c == t);
            }
            let path = slice_of(rec, t + 1, rec.len());
            let meta = words_of(&slice_of(rec, 0, t));
            if is_blank_chars(&path) || meta.len() < 3 {
                return None;
            }
            proof {
                assert(views(meta@)[2] == meta@[2]@);
            }
            match parse_u8_chars(&trim_chars(&meta[2])) {
                Some(s) => if s == 0 {
                    None
                } else {
                    Some((string_of(&path), s))
                },
                None => None,
            }
        },
        None => None,
    }
}

/// Parses `git ls-files -u -z` output into (path, stage) pairs.
pub fn parse_ls_files_unmerged_z(stdout: &[u8]) -> (r: Vec<(String, u8)>)
    ensures
        stage_views(r@) == unmerged_pairs(split_on(utf8_lossy(stdout@), '\0')),
{
    let text = decode_lossy(stdout);
    parse_ls_files_unmerged_text(text.as_str())
}

/// Parses decoded `git ls-files -u -z` output into (path, stage) pairs.
pub fn parse_ls_files_unmerged_text(text: &str) -> (r: Vec<(String, u8)>)
    ensures
        stage_views(r@) == unmerged_pairs(split_on(text@, '\0')),
{
    let chars = chars_of(text);
    let recs = split_chars(&chars, '\0');
    let ghost rs = views(recs@);
    let mut out: Vec<(String, u8)> = Vec::new();
    let mut i: usize = 0;
    while i < recs.len()
        invariant
            i <= recs.len(),
            rs == views(recs@),
            stage_views(out@) == unmerged_pairs(rs.take(i as int)),
        decreases recs.len() - i,
    {
        let ghost before = out@;
        proof {
            assert(rs.take(i + 1).drop_last() == rs.take(i as int));
            assert(rs.take(i + 1).last() == recs@[i as int]@);
        }
        match unmerged_record_parse(&recs[i]) {
            Some(p) => {
                out.push(p);
                proof {
                    assert(stage_views(out@) =~= stage_views(before).push((p.0@, p.1)));
                }
            },
            None => {},
        }
        i += 1;
    }
    proof {
        assert(rs.take(recs.len() as int) == rs);
    }
    out
}

/// Stage `s` is recorded for `path`.
pub open spec fn has_stage(ps: Seq<(Seq<char>, u8)>, path: Seq<char>, s: u8) -> bool {
    exists|i: int| 0 <= i < ps.len() && ps[i] == (path, s)
}

/// The stages below `s` recorded for `path`, in increasing order.
pub open spec fn stages_below(ps: Seq<(Seq<char>, u8)>, path: Seq<char>, s: int) -> Seq<u8>
    decreases s,
{
    if s <= 0 {
        seq![]
    } else {
        let r = stages_below(ps, path, s - 1);
        if has_stage(ps, path, (s - 1) as u8) {
            r.push((s - 1) as u8)
        } else {
            r
        }
    }
}

/// The distinct stages recorded for `path`, in increasing order.
pub open spec fn stages_of(ps: Seq<(Seq<char>, u8)>, path: Seq<char>) -> Seq<u8> {
    stages_below(ps, path, 256)
}

fn has_stage_exec(pairs: &Vec<(String, u8)>, path: &String, s: u8) -> (r: bool)
    ensures
        r == has_stage(stage_views(pairs@), path@, s),
{
    let ghost ps = stage_views(pairs@);
    let mut i: usize = 0;
    while i < pairs.len()
        invariant
            i <= pairs.len(),
            ps == stage_views(pairs@),
            forall|j: int| 0 <= j < i ==> ps[j] != (path@, s),
        decreases pairs.len() - i,
    {
        if pairs[i].1 == s && pairs[i].0 == *path {
            proof {
                assert(ps[i as int] == (path@, s));
            }
            return true;
        }
        proof {
            assert(ps[i as int] == (pairs@[i as int].0@, pairs@[i as int].1));
        }
        i += 1;
    }
    false
}

/// The distinct stages recorded for `path`, in increasing order.
pub fn stages_for(pairs: &Vec<(String, u8)>, path: &String) -> (r: Vec<u8>)
    ensures
        r@ == stages_of(stage_views(pairs@), path@),
{
    let ghost ps = stage_views(pairs@);
    let mut out: Vec<u8> = Vec::new();
    let mut s: u16 = 0;
    while s < 256
        invariant
            s <= 256,
            ps == stage_views(pairs@),
            out@ == stages_below(ps, path@, s as int),
        decreases 256 - s,
    {
        if has_stage_exec(pairs, path, s as u8) {
            out.push(s as u8);
        }
        s += 1;
    }
    out
}

/// One staged change from `git diff --name-status -z`.
pub struct NameStatusEntry {
    pub status: String,
    pub path: String,
    pub old_path: Option<String>,
}

/// The value of a [`NameStatusEntry`]: status, path, previous path.
pub open spec fn name_status_view(e: NameStatusEntry) -> (Seq<char>, Seq<char>, Option<Seq<char>>) {
    (e.status@, e.path@, opt_view(e.old_path))
}

pub open spec fn name_status_views(v: Seq<NameStatusEntry>) -> Seq<
    (Seq<char>, Seq<char>, Option<Seq<char>>),
> {
    v.map_values(|e: NameStatusEntry| name_status_view(e))
}

/// `drop_empty` on the NUL-separated tokens.
pub open spec fn nonempty_tokens(ts: Seq<Seq<char>>) -> Seq<Seq<char>> {
    crate::text::drop_empty(ts)
}

/// The entries that name-status tokens describe: a status token, then one
/// path, or two (old, new) when the status begins with `R` or `C`.  A record
/// cut short ends the list.
pub open spec fn name_status_records(toks: Seq<Seq<char>>) -> Seq<
    (Seq<char>, Seq<char>, Option<Seq<char>>),
>
    decreases toks.len(),
{
    if toks.len() == 0 {
        seq![]
    } else {
        let st = trim(toks[0]);
        if st.len() == 0 {
            name_status_records(toks.drop_first())
        } else if st[0] == 'R' || st[0] == 'C' {
            if toks.len() < 3 {
                seq![]
            } else {
                let old = toks[1];
                let new = toks[2];
                let here = if is_blank(new) {
                    seq![]
                } else {
                    seq![
                        (st, new, if is_blank(old) {
                            None
                        } else {
                            Some(old)
                        }),
                    ]
                };
                here + name_status_records(toks.subrange(3, toks.len() as int))
            }
        } else {
            if toks.len() < 2 {
                seq![]
            } else {
                let here = if is_blank(toks[1]) {
                    seq![]
                } else {
                    seq![(st, toks[1], None)]
                };
                here + name_status_records(toks.subrange(2, toks.len() as int))
            }
        }
    }
}

/// The entries of a `git diff --name-status -z` output.
pub open spec fn name_status_of_output(out: Seq<u8>) -> Seq<(Seq<char>, Seq<char>, Option<Seq<char>>)> {
    name_status_records(nonempty_tokens(split_on(utf8_lossy(out), '\0')))
}

fn nonempty_pieces(v: &Vec<Vec<char>>) -> (r: Vec<Vec<char>>)
    ensures
        views(r@) == crate::text::drop_empty(views(v@)),
{
    let ghost ps = views(v@);
    let mut out: Vec<Vec<char>> = Vec::new();
    let mut i: usize = 0;
    while i < v.len()
        invariant
            i <= v.len(),
            ps == views(v@),
            views(out@) == crate::text::drop_empty(ps.take(i as int)),
        decreases v.len() - i,
    {
        proof {
            assert(ps.take(i + 1).drop_last() == ps.take(i as int));
            assert(ps.take(i + 1).last() == v@[i as int]@);
        }
        if v[i].len() > 0 {
            let ghost before = out@;
            let piece = slice_of(&v[i], 0, v[i].len());
            out.push(piece);
            proof {
                assert(v@[i as int]@.subrange(0, v@[i as int]@.len() as int) == v@[i as int]@);
                assert(views(out@) =~= views(before).push(v@[i as int]@));
            }
        }
        i += 1;
    }
    proof {
        assert(ps.take(v.len() as int) == ps);
    }
    out
}

/// Parses `git diff --name-status -z` output.
pub fn parse_name_status_z(stdout: &[u8]) -> (r: Vec<NameStatusEntry>)
    ensures
        name_status_views(r@) == name_status_of_output(stdout@),
{
    let text = decode_lossy(stdout);
    parse_name_status_text(text.as_str())
}

/// Parses decoded `git diff --name-status -z` output.
pub fn parse_name_status_text(text: &str) -> (r: Vec<NameStatusEntry>)
    ensures
        name_status_views(r@) == name_status_records(nonempty_tokens(split_on(text@, '\0'))),
{
    let chars = chars_of(text);
    let toks = nonempty_pieces(&split_chars(&chars, '\0'));
    let ghost ts = views(toks@);
    let n = toks.len();
    let mut out: Vec<NameStatusEntry> = Vec::new();
    let mut i: usize = 0;
    proof {
        assert(ts.subrange(0, n as int) == ts);
        assert(name_status_views(out@) =~= seq![]);
    }
    while i < n
        invariant
            i <= n == toks.len(),
            ts == views(toks@),
            name_status_views(out@) + name_status_records(ts.subrange(i as int, n as int))
                == name_status_records(ts),
        decreases n - i,
    {
        let ghost tail = ts.subrange(i as int, n as int);
        let ghost before = out@;
        proof {
            assert(tail[0] == toks@[i as int]@);
            assert(tail.drop_first() == ts.subrange(i + 1, n as int));
        }
        let st = trim_chars(&toks[i]);
        if st.len() == 0 {
            i += 1;
        } else if st[0] == 'R' || st[0] == 'C' {
            if n - i < 3 {
                proof {
                    assert(name_status_records(tail) =~= seq![]);
                    assert(name_status_views(out@) + name_status_records(
                        ts.subrange(n as int, n as int),
                    ) =~= name_status_views(out@));
                }
                i = n;
            } else {
                proof {
                    assert(tail[1] == toks@[i + 1]@);
                    assert(tail[2] == toks@[i + 2]@);
                    assert(tail.subrange(3, tail.len() as int) == ts.subrange(i + 3, n as int));
                }
                let old = &toks[i + 1];
                let new = &toks[i + 2];
                if !is_blank_chars(new) {
                    let old_path = if is_blank_chars(old) {
                        None
                    } else {
                        Some(string_of(old))
                    };
                    out.push(NameStatusEntry { status: string_of(&st), path: string_of(new), old_path });
                }
                proof {
                    assert(name_status_views(out@) =~= name_status_views(before) + (if is_blank(
                        new@,
                    ) {
                        seq![]
                    } else {
                        seq![
                            (st@, new@, if is_blank(old@) {
                                None
                            } else {
                                Some(old@)
                            }),
                        ]
                    }));
                }
                i += 3;
            }
        } else {
            if i + 1 >= n {
                proof {
                    assert(name_status_records(tail) =~= seq![]);
                    assert(name_status_views(out@) + name_status_records(
                        ts.subrange(n as int, n as int),
                    ) =~= name_status_views(out@));
                }
                i = n;
            } else {
                proof {
                    assert(tail[1] == toks@[i + 1]@);
                    assert(tail.subrange(2, tail.len() as int) == ts.subrange(i + 2, n as int));
                }
                let path = &toks[i + 1];
                if !is_blank_chars(path) {
                    out.push(NameStatusEntry { status: string_of(&st), path: string_of(path), old_path: None });
                }
                proof {
                    assert(name_status_views(out@) =~= name_status_views(before) + (if is_blank(
                        path@,
                    ) {
                        seq![]
                    } else {
                        seq![(st@, path@, None::<Seq<char>>)]
                    }));
                }
                i += 2;
            }
        }
    }
    proof {
        assert(ts.subrange(n as int, n as int) =~= seq![]);
    }
    out
}

pub open spec fn triple_views(v: Seq<(String, Option<String>, String)>) -> Seq<
    (Seq<char>, Option<Seq<char>>, Seq<char>),
> {
    v.map_values(|t: (String, Option<String>, String)| (t.0@, opt_view(t.1), t.2@))
}

/// Parses `git diff --name-status -z` output into (status, old path, path)
/// triples.
pub fn parse_name_status_like_z(stdout: &[u8]) -> (r: Vec<(String, Option<String>, String)>)
    ensures
        triple_views(r@) == name_status_of_output(stdout@).map_values(
            |e: (Seq<char>, Seq<char>, Option<Seq<char>>)| (e.0, e.2, e.1),
        ),
{
    let text = decode_lossy(stdout);
    parse_name_status_like_text(text.as_str())
}

/// Parses decoded `git diff --name-status -z` output into (status, old
/// path, path) triples.
pub fn parse_name_status_like_text(text: &str) -> (r: Vec<(String, Option<String>, String)>)
    ensures
        triple_views(r@) == name_status_records(nonempty_tokens(split_on(text@, '\0'))).map_values(
            |e: (Seq<char>, Seq<char>, Option<Seq<char>>)| (e.0, e.2, e.1),
        ),
{
    let entries = parse_name_status_text(text);
    let ghost es = name_status_views(entries@);
    let mut out: Vec<(String, Option<String>, String)> = Vec::new();
    let mut i: usize = 0;
    while i < entries.len()
        invariant
            i <= entries.len(),
            es == name_status_views(entries@),
            triple_views(out@) =~= es.take(i as int).map_values(
                |e: (Seq<char>, Seq<char>, Option<Seq<char>>)| (e.0, e.2, e.1),
            ),
        decreases entries.len() - i,
    {
        let e = &entries[i];
        let ghost before = out@;
        out.push((e.status.clone(), e.old_path.clone(), e.path.clone()));
        proof {
            assert(triple_views(out@) =~= triple_views(before).push(
                (e.status@, opt_view(e.old_path), e.path@),
            ));
            assert(es.take(i + 1) == es.take(i as int).push(es[i as int]));
        }
        i += 1;
    }
    proof {
        assert(es.take(entries.len() as int) == es);
    }
    out
}

/// The (old path, new path) pairs of the renames in name-status entries.
pub open spec fn renames_of(es: Seq<(Seq<char>, Seq<char>, Option<Seq<char>>)>) -> Seq<
    (Seq<char>, Seq<char>),
>
    decreases es.len(),
{
    if es.len() == 0 {
        seq![]
    } else {
        let r = renames_of(es.drop_last());
        let e = es.last();
        if e.0.len() > 0 && e.0[0] == 'R' && e.2 is Some && !is_blank(e.2->0) && !is_blank(e.1) {
            r.push((e.2->0, e.1))
        } else {
            r
        }
    }
}

/// The renames between `HEAD` and the incoming side that
/// `git diff --name-status -z -M20% HEAD <theirs>` reports, as
/// (old path, new path) pairs; nothing when the diff failed (`diff_ok` is
/// false: an exit code other than 0 or 1).
pub fn detect_renames_against_theirs(diff_ok: bool, stdout: &[u8]) -> (r: Vec<(String, String)>)
    ensures
        !diff_ok ==> r@.len() == 0,
        diff_ok ==> pair_views(r@) == renames_of(name_status_of_output(stdout@)),
{
    let mut out: Vec<(String, String)> = Vec::new();
    if !diff_ok {
        return out;
    }
    let entries = parse_name_status_z(stdout);
    let ghost es = name_status_views(entries@);
    let mut i: usize = 0;
    while i < entries.len()
        invariant
            i <= entries.len(),
            es == name_status_views(entries@),
            es == name_status_of_output(stdout@),
            pair_views(out@) == renames_of(es.take(i as int)),
        decreases entries.len() - i,
    {
        let e = &entries[i];
        let ghost before = out@;
        proof {
            assert(es.take(i + 1).drop_last() == es.take(i as int));
            assert(es.take(i + 1).last() == name_status_view(*e));
            assert(es[i as int] == name_status_view(*e));
        }
        let st = chars_of(e.status.as_str());
        if st.len() > 0 && st[0] == 'R' {
            match &e.old_path {
                Some(old) => {
                    let oc = chars_of(old.as_str());
                    let pc = chars_of(e.path.as_str());
                    if !is_blank_chars(&oc) && !is_blank_chars(&pc) {
                        out.push((old.clone(), e.path.clone()));
                        proof {
                            assert(pair_views(out@) =~= pair_views(before).push((old@, e.path@)));
                        }
                    }
                },
                None => {},
            }
        }
        i += 1;
    }
    proof {
        assert(es.take(entries.len() as int) == es);
    }
    out
}

/// `b` holds a NUL byte, the mark of binary content.
pub open spec fn has_nul(b: Seq<u8>) -> bool {
    exists|i: int| 0 <= i < b.len() && b[i] == 0
}

pub open spec fn binary_error() -> Seq<char> {
    "Binary file preview is not supported."@
}

/// The text of `bytes`, or an error for binary content.
pub fn bytes_to_text_or_err(bytes: &[u8]) -> (r: Result<String, String>)
    ensures
        has_nul(bytes@) ==> (r matches Err(e) && e@ == binary_error()),
        !has_nul(bytes@) ==> (r matches Ok(t) && t@ == utf8_lossy(bytes@)),
{
    let mut i: usize = 0;
    while i < bytes.len()
        invariant
            i <= bytes.len(),
            forall|k: int| 0 <= k < i ==> bytes@[k] != 0,
        decreases bytes.len() - i,
    {
        if bytes[i] == 0 {
            return Err(crate::text::string_from("Binary file preview is not supported."));
        }
        i += 1;
    }
    Ok(decode_lossy(bytes))
}

/// One unmerged path, with its status letters and the index stages present
/// (1 base, 2 ours, 3 theirs).
pub struct ConflictFileEntry {
    pub status: String,
    pub path: String,
    pub stages: Vec<u8>,
}

/// What a repository's conflict state is: whether an operation is under
/// way, which one, and the unmerged paths.
pub struct ConflictState {
    pub in_progress: bool,
    pub operation: ConflictOperation,
    pub files: Vec<ConflictFileEntry>,
}

/// The value of a [`ConflictState`].
pub struct ConflictStateView {
    pub in_progress: bool,
    pub operation: ConflictOperation,
    pub files: Seq<(Seq<char>, Seq<char>, Seq<u8>)>,
}

impl View for ConflictState {
    type V = ConflictStateView;

    open spec fn view(&self) -> ConflictStateView {
        ConflictStateView {
            in_progress: self.in_progress,
            operation: self.operation,
            files: self.files@.map_values(
                |e: ConflictFileEntry| (e.status@, e.path@, e.stages@),
            ),
        }
    }
}

/// The status letters shown for `path`: those of the (decoded) porcelain
/// status output when it has them, else `U`.
pub open spec fn status_shown(status_out: Option<Seq<char>>, path: Seq<char>) -> Seq<char> {
    match status_out {
        Some(o) => match last_value(porcelain_pairs(split_on(o, '\0')), path) {
            Some(st) => st,
            None => seq!['U'],
        },
        None => seq!['U'],
    }
}

/// The stages shown for `path`: those that `git ls-files -u -z` lists, if it
/// ran.
pub open spec fn stages_shown(ls_out: Option<Seq<char>>, path: Seq<char>) -> Seq<u8> {
    match ls_out {
        Some(o) => stages_of(unmerged_pairs(split_on(o, '\0')), path),
        None => seq![],
    }
}

/// The conflict state that the probes, the unmerged path list and the
/// outputs of the status and index listings (`None` where the call failed)
/// describe.
pub open spec fn conflict_state_of(
    probe: OperationProbe,
    unmerged: Seq<Seq<char>>,
    status_out: Option<Seq<char>>,
    ls_out: Option<Seq<char>>,
) -> ConflictStateView {
    ConflictStateView {
        in_progress: probe.applying_marker || probe.rebase_head || probe.merge_head
            || probe.cherry_pick_head,
        operation: operation_of(probe),
        files: unmerged.map_values(
            |p: Seq<char>| (status_shown(status_out, p), p, stages_shown(ls_out, p)),
        ),
    }
}

/// The decoded text of an output, where the call succeeded.
pub open spec fn opt_lossy(o: Option<&[u8]>) -> Option<Seq<char>> {
    match o {
        Some(b) => Some(utf8_lossy(b@)),
        None => None,
    }
}

pub open spec fn opt_text(o: Option<&str>) -> Option<Seq<char>> {
    match o {
        Some(t) => Some(t@),
        None => None,
    }
}

/// Builds the conflict state from raw outputs (see [`conflict_state_text`]).
pub fn conflict_state(
    probe: OperationProbe,
    unmerged: &Vec<String>,
    status_out: Option<&[u8]>,
    ls_files_out: Option<&[u8]>,
) -> (r: ConflictState)
    ensures
        r@ == conflict_state_of(
            probe,
            string_views(unmerged@),
            opt_lossy(status_out),
            opt_lossy(ls_files_out),
        ),
{
    let st: Option<String> = match status_out {
        Some(o) => Some(decode_lossy(o)),
        None => None,
    };
    let ls: Option<String> = match ls_files_out {
        Some(o) => Some(decode_lossy(o)),
        None => None,
    };
    let st_ref: Option<&str> = match &st {
        Some(t) => Some(t.as_str()),
        None => None,
    };
    let ls_ref: Option<&str> = match &ls {
        Some(t) => Some(t.as_str()),
        None => None,
    };
    conflict_state_text(probe, unmerged, st_ref, ls_ref)
}

/// Builds the conflict state from what the repository showed: the probes,
/// the unmerged paths, and the decoded outputs of the status and index
/// listings.  Those listings only annotate the unmerged paths: where one
/// failed (`None`), each path gets the fallback `U` or no stages.
pub fn conflict_state_text(
    probe: OperationProbe,
    unmerged: &Vec<String>,
    status_out: Option<&str>,
    ls_files_out: Option<&str>,
) -> (r: ConflictState)
    ensures
        r@ == conflict_state_of(
            probe,
            string_views(unmerged@),
            opt_text(status_out),
            opt_text(ls_files_out),
        ),
{
    let ghost so = opt_text(status_out);
    let ghost lo = opt_text(ls_files_out);
    let status_pairs: Vec<(String, String)> = match status_out {
        Some(o) => parse_status_porcelain_text(o),
        None => Vec::new(),
    };
    let stage_pairs: Vec<(String, u8)> = match ls_files_out {
        Some(o) => parse_ls_files_unmerged_text(o),
        None => Vec::new(),
    };
    let mut files: Vec<ConflictFileEntry> = Vec::new();
    let mut i: usize = 0;
    while i < unmerged.len()
        invariant
            i <= unmerged.len(),
            so == opt_text(status_out),
            lo == opt_text(ls_files_out),
            so is None ==> status_pairs@.len() == 0,
            so matches Some(o) ==> pair_views(status_pairs@) == porcelain_pairs(
                split_on(o, '\0'),
            ),
            lo matches Some(o) ==> stage_views(stage_pairs@) == unmerged_pairs(
                split_on(o, '\0'),
            ),
            files@.map_values(|e: ConflictFileEntry| (e.status@, e.path@, e.stages@))
                =~= string_views(unmerged@).take(i as int).map_values(
                |p: Seq<char>| (status_shown(so, p), p, stages_shown(lo, p)),
            ),
        decreases unmerged.len() - i,
    {
        let p = &unmerged[i];
        let status = match lookup_last(&status_pairs, p) {
            Some(st) => st,
            None => string_of(&vec!['U']),
        };
        let stages = match ls_files_out {
            Some(_) => stages_for(&stage_pairs, p),
            None => Vec::new(),
        };
        proof {
            if so is None {
                assert(pair_views(status_pairs@) =~= seq![]);
            }
            assert(status@ == status_shown(so, p@));
            assert(stages@ == stages_shown(lo, p@));
        }
        let ghost before = files@;
        let ghost sv = status@;
        let ghost gv = stages@;
        files.push(ConflictFileEntry { status, path: p.clone(), stages });
        proof {
            assert(files@.map_values(|e: ConflictFileEntry| (e.status@, e.path@, e.stages@))
                =~= before.map_values(|e: ConflictFileEntry| (e.status@, e.path@, e.stages@)).push(
                (sv, p@, gv),
            ));
            assert(string_views(unmerged@).take(i + 1) == string_views(unmerged@).take(
                i as int,
            ).push(p@));
        }
        i += 1;
    }
    proof {
        assert(string_views(unmerged@).take(unmerged.len() as int) == string_views(unmerged@));
    }
    let operation = detect_conflict_operation(probe);
    ConflictState {
        in_progress: probe.applying_marker || probe.rebase_head || probe.merge_head
            || probe.cherry_pick_head,
        operation,
        files,
    }
}

/// Asking for the conflict state twice, with nothing changed in between so
/// that the repository shows the same probes and outputs both times, gives
/// the same state.
pub proof fn lemma_conflict_state_repeatable(
    probe1: OperationProbe,
    unmerged1: Seq<Seq<char>>,
    status1: Option<Seq<char>>,
    ls1: Option<Seq<char>>,
    probe2: OperationProbe,
    unmerged2: Seq<Seq<char>>,
    status2: Option<Seq<char>>,
    ls2: Option<Seq<char>>,
)
    requires
        probe1 == probe2,
        unmerged1 == unmerged2,
        status1 == status2,
        ls1 == ls2,
    ensures
        conflict_state_of(probe1, unmerged1, status1, ls1) == conflict_state_of(
            probe2,
            unmerged2,
            status2,
            ls2,
        ),
{
}

/// The shape of a conflict.
#[derive(PartialEq, Eq, Structural, Clone, Copy, Debug)]
pub enum ConflictKind {
    Text,
    Rename,
    ModifyDelete,
}

/// What the incoming side's reference shows for a conflicted path: the path
/// it renamed the file to, if the rename diff found one, the content at that
/// path, and whether the reference holds the path itself.
pub struct TheirsRefProbe {
    pub renamed_to: Option<String>,
    pub renamed_content: Vec<u8>,
    pub path_exists: bool,
}

/// The raw material for one conflicted path: the contents of index stages
/// 1, 2 and 3 (empty where the stage is absent), the working-tree file (if
/// any), whether `HEAD` holds the path, and, when a theirs reference
/// resolves, what it shows.
pub struct ConflictSides {
    pub base: Vec<u8>,
    pub ours: Vec<u8>,
    pub theirs: Vec<u8>,
    pub working: Option<Vec<u8>>,
    pub ours_in_head: bool,
    pub theirs_ref: Option<TheirsRefProbe>,
}

/// The four versions of a conflicted path and how the conflict is shaped.
pub struct ConflictFileVersions {
    pub base: Option<String>,
    pub ours: Option<String>,
    pub theirs: Option<String>,
    pub working: Option<String>,
    pub ours_path: Option<String>,
    pub theirs_path: Option<String>,
    pub ours_deleted: bool,
    pub theirs_deleted: bool,
    pub conflict_kind: ConflictKind,
}

/// The incoming side renamed the path and has content at the new path.
pub open spec fn renamed_on_theirs(s: ConflictSides) -> bool {
    &&& s.theirs@.len() == 0
    &&& s.theirs_ref matches Some(t)
    &&& t.renamed_to is Some
    &&& t.renamed_content@.len() > 0
}

/// The incoming side's reference resolves and does not hold the path.
pub open spec fn missing_on_theirs(s: ConflictSides) -> bool {
    &&& s.theirs@.len() == 0
    &&& !renamed_on_theirs(s)
    &&& s.theirs_ref matches Some(t)
    &&& !t.path_exists
}

/// Some content that would be shown is binary.
pub open spec fn sides_binary(s: ConflictSides) -> bool {
    ||| has_nul(s.base@)
    ||| has_nul(s.ours@)
    ||| has_nul(s.theirs@)
    ||| (s.working matches Some(w) && has_nul(w@))
    ||| (renamed_on_theirs(s) && has_nul(s.theirs_ref->0.renamed_content@))
}

/// Ours is missing: stage 2 is empty.
pub open spec fn ours_missing(s: ConflictSides) -> bool {
    s.ours@.len() == 0
}

/// Theirs is missing: stage 3 is empty and no renamed content stands in.
pub open spec fn theirs_missing(s: ConflictSides) -> bool {
    s.theirs@.len() == 0 && !renamed_on_theirs(s)
}

/// Ours is reported deleted: stage 2 is empty and `HEAD` lacks the path, or
/// exactly one side is missing and the conflict is no rename.
pub open spec fn ours_deleted_of(s: ConflictSides) -> bool {
    if !renamed_on_theirs(s) && (ours_missing(s) != theirs_missing(s)) {
        ours_missing(s)
    } else {
        ours_missing(s) && !s.ours_in_head
    }
}

/// Theirs is reported deleted.
pub open spec fn theirs_deleted_of(s: ConflictSides) -> bool {
    if !renamed_on_theirs(s) && (ours_missing(s) != theirs_missing(s)) {
        theirs_missing(s)
    } else if s.theirs@.len() > 0 || renamed_on_theirs(s) {
        false
    } else {
        match s.theirs_ref {
            Some(t) => !t.path_exists,
            None => true,
        }
    }
}

/// The shape of the conflict.
pub open spec fn kind_of(s: ConflictSides) -> ConflictKind {
    if ours_deleted_of(s) {
        ConflictKind::ModifyDelete
    } else if renamed_on_theirs(s) {
        ConflictKind::Rename
    } else if missing_on_theirs(s) || (ours_missing(s) != theirs_missing(s)) {
        ConflictKind::ModifyDelete
    } else {
        ConflictKind::Text
    }
}

/// The text of a stage, absent where the stage is empty.
pub open spec fn stage_text(b: Seq<u8>) -> Option<Seq<char>> {
    if b.len() == 0 {
        None
    } else {
        Some(utf8_lossy(b))
    }
}

/// The theirs text: stage 3, or the content at the renamed path.
pub open spec fn theirs_text(s: ConflictSides) -> Option<Seq<char>> {
    if s.theirs@.len() > 0 {
        Some(utf8_lossy(s.theirs@))
    } else if renamed_on_theirs(s) {
        Some(utf8_lossy(s.theirs_ref->0.renamed_content@))
    } else {
        None
    }
}

fn stage_text_of(b: &Vec<u8>) -> (r: Option<String>)
    requires
        !has_nul(b@),
    ensures
        opt_view(r) == stage_text(b@),
{
    if b.len() == 0 {
        None
    } else {
        Some(decode_lossy(b.as_slice()))
    }
}

fn any_nul(b: &Vec<u8>) -> (r: bool)
    ensures
        r == has_nul(b@),
{
    let mut i: usize = 0;
    while i < b.len()
        invariant
            i <= b.len(),
            forall|k: int| 0 <= k < i ==> b@[k] != 0,
        decreases b.len() - i,
    {
        if b[i] == 0 {
            return true;
        }
        i += 1;
    }
    false
}

/// The four versions of the conflicted `path` and the conflict's shape:
/// binary content anywhere is refused; otherwise a side whose stage is
/// empty counts as deleted where its reference lacks the path, and a
/// rename on the incoming side supplies theirs from the new path.
pub fn conflict_file_versions(path: &String, s: &ConflictSides) -> (r: Result<
    ConflictFileVersions,
    String,
>)
    ensures
        sides_binary(*s) <==> r is Err,
        r matches Err(e) ==> e@ == binary_error(),
        r matches Ok(v) ==> {
            &&& opt_view(v.base) == stage_text(s.base@)
            &&& opt_view(v.ours) == stage_text(s.ours@)
            &&& opt_view(v.theirs) == theirs_text(*s)
            &&& opt_view(v.working) == match s.working {
                Some(w) => Some(utf8_lossy(w@)),
                None => None::<Seq<char>>,
            }
            &&& opt_view(v.ours_path) == Some(path@)
            &&& opt_view(v.theirs_path) == if renamed_on_theirs(*s) {
                Some(s.theirs_ref->0.renamed_to->0@)
            } else {
                None
            }
            &&& v.ours_deleted == ours_deleted_of(*s)
            &&& v.theirs_deleted == theirs_deleted_of(*s)
            &&& v.conflict_kind == kind_of(*s)
        },
{
    let renamed = s.theirs.len() == 0 && match &s.theirs_ref {
        Some(t) => t.renamed_to.is_some() && t.renamed_content.len() > 0,
        None => false,
    };
    let binary = any_nul(&s.base) || any_nul(&s.ours) || any_nul(&s.theirs) || match &s.working {
        Some(w) => any_nul(w),
        None => false,
    } || (renamed && match &s.theirs_ref {
        Some(t) => any_nul(&t.renamed_content),
        None => false,
    });
    if binary {
        return Err(crate::text::string_from("Binary file preview is not supported."));
    }
    let base = stage_text_of(&s.base);
    let ours = stage_text_of(&s.ours);
    let working = match &s.working {
        Some(w) => Some(decode_lossy(w.as_slice())),
        None => None,
    };
    let mut theirs = stage_text_of(&s.theirs);
    let mut theirs_path: Option<String> = None;
    if renamed {
        match &s.theirs_ref {
            Some(t) => {
                theirs = Some(decode_lossy(t.renamed_content.as_slice()));
                match &t.renamed_to {
                    Some(np) => {
                        theirs_path = Some(np.clone());
                    },
                    None => {},
                }
            },
            None => {},
        }
    }
    let om = s.ours.len() == 0;
    let tm = s.theirs.len() == 0 && !renamed;
    let one_missing = !renamed && (om != tm);
    let ours_deleted = if one_missing {
        om
    } else {
        om && !s.ours_in_head
    };
    let theirs_deleted = if one_missing {
        tm
    } else if s.theirs.len() > 0 || renamed {
        false
    } else {
        match &s.theirs_ref {
            Some(t) => !t.path_exists,
            None => true,
        }
    };
    let missing_theirs = s.theirs.len() == 0 && !renamed && match &s.theirs_ref {
        Some(t) => !t.path_exists,
        None => false,
    };
    let conflict_kind = if ours_deleted {
        ConflictKind::ModifyDelete
    } else if renamed {
        ConflictKind::Rename
    } else if missing_theirs || (om != tm) {
        ConflictKind::ModifyDelete
    } else {
        ConflictKind::Text
    };
    Ok(
        ConflictFileVersions {
            base,
            ours,
            theirs,
            working,
            ours_path: Some(path.clone()),
            theirs_path,
            ours_deleted,
            theirs_deleted,
            conflict_kind,
        },
    )
}

/// A path modified locally and deleted on the incoming side is a
/// modify/delete conflict with theirs deleted and ours kept.
pub proof fn lemma_deleted_upstream_is_modify_delete(s: ConflictSides)
    requires
        s.ours@.len() > 0,
        s.theirs@.len() == 0,
        s.theirs_ref matches Some(t) && !t.path_exists && (t.renamed_to is None
            || t.renamed_content@.len() == 0),
    ensures
        kind_of(s) == ConflictKind::ModifyDelete,
        theirs_deleted_of(s),
        !ours_deleted_of(s),
        !renamed_on_theirs(s),
        theirs_text(s) is None,
        stage_text(s.ours@) == Some(utf8_lossy(s.ours@)),
{
}

/// One step of a conflict resolution, run in order.
pub enum ResolveStep {
    /// `git rm -f -- <path>`
    Remove(String),
    /// `git rm -f --ignore-unmatch -- <path>`, then delete any file or
    /// directory left at the path.
    Discard(String),
    /// `git checkout --ours -- <path>`
    CheckoutOurs(String),
    /// `git checkout --theirs -- <path>`
    CheckoutTheirs(String),
    /// `git add -- <path>`
    Stage(String),
    /// `git add -A -- <path>`
    StageAll(String),
    /// Write the bytes to the working-tree file, creating its directories.
    WriteBytes(String, Vec<u8>),
    /// Write the text to the working-tree file, creating its directories.
    WriteText(String, String),
}

/// The value of a [`ResolveStep`].
pub enum StepView {
    Remove(Seq<char>),
    Discard(Seq<char>),
    CheckoutOurs(Seq<char>),
    CheckoutTheirs(Seq<char>),
    Stage(Seq<char>),
    StageAll(Seq<char>),
    Write(Seq<char>),
}

impl View for ResolveStep {
    type V = StepView;

    open spec fn view(&self) -> StepView {
        match self {
            ResolveStep::Remove(p) => StepView::Remove(p@),
            ResolveStep::Discard(p) => StepView::Discard(p@),
            ResolveStep::CheckoutOurs(p) => StepView::CheckoutOurs(p@),
            ResolveStep::CheckoutTheirs(p) => StepView::CheckoutTheirs(p@),
            ResolveStep::Stage(p) => StepView::Stage(p@),
            ResolveStep::StageAll(p) => StepView::StageAll(p@),
            ResolveStep::WriteBytes(p, _) => StepView::Write(p@),
            ResolveStep::WriteText(p, _) => StepView::Write(p@),
        }
    }
}

pub open spec fn step_views(v: Seq<ResolveStep>) -> Seq<StepView> {
    v.map_values(|st: ResolveStep| st@)
}

/// The paths of the index: those still unmerged and those indexed.
pub struct IndexModel {
    pub unmerged: Set<Seq<char>>,
    pub indexed: Set<Seq<char>>,
}

/// What a step does to the index: removing a path drops it from both sets,
/// staging it resolves it and tracks it, checking out or writing a file
/// leaves the index alone.
pub open spec fn after_step(m: IndexModel, st: StepView) -> IndexModel {
    match st {
        StepView::Remove(p) => IndexModel { unmerged: m.unmerged.remove(p), indexed: m.indexed.remove(p) },
        StepView::Discard(p) => IndexModel { unmerged: m.unmerged.remove(p), indexed: m.indexed.remove(p) },
        StepView::Stage(p) => IndexModel { unmerged: m.unmerged.remove(p), indexed: m.indexed.insert(p) },
        StepView::StageAll(p) => IndexModel { unmerged: m.unmerged.remove(p), indexed: m.indexed.insert(p) },
        _ => m,
    }
}

pub open spec fn after_steps(m: IndexModel, steps: Seq<StepView>) -> IndexModel
    decreases steps.len(),
{
    if steps.len() == 0 {
        m
    } else {
        after_step(after_steps(m, steps.drop_last()), steps.last())
    }
}

/// The steps that keep our side of `path`: remove it where ours deleted it;
/// else remove the incoming rename target, if any, check out ours and stage.
pub open spec fn take_ours_steps(path: Seq<char>, ours_empty: bool, rename_target: Option<Seq<char>>) -> Seq<StepView> {
    if ours_empty {
        seq![StepView::Remove(path)]
    } else {
        let pre = match rename_target {
            Some(t) => seq![StepView::Remove(t)],
            None => seq![],
        };
        pre + seq![StepView::CheckoutOurs(path), StepView::Stage(path)]
    }
}

/// Resolves `path` to our side.  `ours_empty` says stage 2 is empty;
/// `rename_target` is where the incoming side renamed the path, if it did.
pub fn take_ours(path: &String, ours_empty: bool, rename_target: &Option<String>) -> (r: Vec<ResolveStep>)
    ensures
        step_views(r@) == take_ours_steps(path@, ours_empty, opt_view(*rename_target)),
{
    let mut out: Vec<ResolveStep> = Vec::new();
    if ours_empty {
        out.push(ResolveStep::Remove(path.clone()));
        proof {
            assert(step_views(out@) =~= seq![StepView::Remove(path@)]);
        }
        return out;
    }
    match rename_target {
        Some(t) => {
            out.push(ResolveStep::Remove(t.clone()));
        },
        None => {},
    }
    out.push(ResolveStep::CheckoutOurs(path.clone()));
    out.push(ResolveStep::Stage(path.clone()));
    proof {
        assert(step_views(out@) =~= take_ours_steps(path@, ours_empty, opt_view(*rename_target)));
    }
    out
}

/// The steps that take the incoming side of `path`.
pub open spec fn take_theirs_steps(
    path: Seq<char>,
    theirs_present: bool,
    renamed_to: Option<Seq<char>>,
    renamed_content_empty: bool,
) -> Seq<StepView> {
    if theirs_present {
        seq![StepView::CheckoutTheirs(path), StepView::Stage(path)]
    } else {
        match renamed_to {
            Some(np) => if renamed_content_empty {
                seq![StepView::Remove(path)]
            } else {
                seq![StepView::Write(np), StepView::StageAll(np), StepView::Remove(path)]
            },
            None => seq![StepView::Remove(path)],
        }
    }
}

/// Resolves `path` to the incoming side.  `theirs` is stage 3; where it is
/// empty, `theirs_ref` tells whether the incoming side renamed the path.
pub fn take_theirs(path: &String, theirs: &Vec<u8>, theirs_ref: &Option<TheirsRefProbe>) -> (r: Vec<
    ResolveStep,
>)
    ensures
        step_views(r@) == take_theirs_steps(
            path@,
            theirs@.len() > 0,
            match theirs_ref {
                Some(t) => opt_view(t.renamed_to),
                None => None,
            },
            match theirs_ref {
                Some(t) => t.renamed_content@.len() == 0,
                None => true,
            },
        ),
        forall|i: int|
            0 <= i < r@.len() ==> (#[trigger] r@[i] matches ResolveStep::WriteBytes(_, c) ==> (
            theirs_ref matches Some(t) && c@ == t.renamed_content@)),
        forall|i: int| 0 <= i < r@.len() ==> !(#[trigger] r@[i] is WriteText),
        theirs@.len() == 0 && theirs_ref is Some && theirs_ref->0.renamed_to is Some
            && theirs_ref->0.renamed_content@.len() > 0 ==> (r@[0] matches ResolveStep::WriteBytes(
            p,
            c,
        ) && p@ == theirs_ref->0.renamed_to->0@ && c@ == theirs_ref->0.renamed_content@),
{
    let mut out: Vec<ResolveStep> = Vec::new();
    if theirs.len() > 0 {
        out.push(ResolveStep::CheckoutTheirs(path.clone()));
        out.push(ResolveStep::Stage(path.clone()));
        proof {
            assert(step_views(out@) =~= seq![StepView::CheckoutTheirs(path@), StepView::Stage(path@)]);
        }
        return out;
    }
    match theirs_ref {
        Some(t) => match &t.renamed_to {
            Some(np) => {
                if t.renamed_content.len() > 0 {
                    out.push(ResolveStep::WriteBytes(np.clone(), t.renamed_content.clone()));
                    out.push(ResolveStep::StageAll(np.clone()));
                }
            },
            None => {},
        },
        None => {},
    }
    out.push(ResolveStep::Remove(path.clone()));
    proof {
        assert(step_views(out@) =~= take_theirs_steps(
            path@,
            theirs@.len() > 0,
            match theirs_ref {
                Some(t) => opt_view(t.renamed_to),
                None => None,
            },
            match theirs_ref {
                Some(t) => t.renamed_content@.len() == 0,
                None => true,
            },
        ));
    }
    out
}

/// After taking our side or theirs, `path` is no longer unmerged.  When the
/// incoming side renamed it, exactly one of the two names stays indexed.
pub proof fn lemma_take_side_resolves(
    m: IndexModel,
    path: Seq<char>,
    ours_empty: bool,
    theirs_present: bool,
    renamed_to: Option<Seq<char>>,
    renamed_content_empty: bool,
)
    ensures
        !after_steps(m, take_ours_steps(path, ours_empty, renamed_to)).unmerged.contains(path),
        !after_steps(
            m,
            take_theirs_steps(path, theirs_present, renamed_to, renamed_content_empty),
        ).unmerged.contains(path),
        renamed_to is Some && renamed_to->0 != path && !ours_empty ==> {
            let t = renamed_to->0;
            let after = after_steps(m, take_ours_steps(path, ours_empty, renamed_to));
            after.indexed.contains(path) && !after.indexed.contains(t)
        },
        renamed_to is Some && renamed_to->0 != path && !theirs_present && !renamed_content_empty
            ==> {
            let t = renamed_to->0;
            let after = after_steps(
                m,
                take_theirs_steps(path, theirs_present, renamed_to, renamed_content_empty),
            );
            after.indexed.contains(t) && !after.indexed.contains(path)
        },
{
    if ours_empty {
        lemma_after_one(m, StepView::Remove(path));
    } else {
        match renamed_to {
            Some(t) => {
                assert(take_ours_steps(path, ours_empty, renamed_to) =~= seq![
                    StepView::Remove(t),
                    StepView::CheckoutOurs(path),
                    StepView::Stage(path),
                ]);
                lemma_after_three(
                    m,
                    StepView::Remove(t),
                    StepView::CheckoutOurs(path),
                    StepView::Stage(path),
                );
            },
            None => {
                assert(take_ours_steps(path, ours_empty, renamed_to) =~= seq![
                    StepView::CheckoutOurs(path),
                    StepView::Stage(path),
                ]);
                lemma_after_two(m, StepView::CheckoutOurs(path), StepView::Stage(path));
            },
        }
    }
    if theirs_present {
        lemma_after_two(m, StepView::CheckoutTheirs(path), StepView::Stage(path));
    } else {
        match renamed_to {
            Some(np) => if renamed_content_empty {
                lemma_after_one(m, StepView::Remove(path));
            } else {
                lemma_after_three(
                    m,
                    StepView::Write(np),
                    StepView::StageAll(np),
                    StepView::Remove(path),
                );
            },
            None => {
                lemma_after_one(m, StepView::Remove(path));
            },
        }
    }
}

pub proof fn lemma_after_one(m: IndexModel, a: StepView)
    ensures
        after_steps(m, seq![a]) == after_step(m, a),
{
    assert(seq![a].drop_last() =~= seq![]);
    assert(seq![a].last() == a);
    assert(after_steps(m, Seq::<StepView>::empty()) == m);
}

pub proof fn lemma_after_two(m: IndexModel, a: StepView, b: StepView)
    ensures
        after_steps(m, seq![a, b]) == after_step(after_step(m, a), b),
{
    assert(seq![a, b].drop_last() =~= seq![a]);
    assert(seq![a, b].last() == b);
    lemma_after_one(m, a);
}

pub proof fn lemma_after_three(m: IndexModel, a: StepView, b: StepView, c: StepView)
    ensures
        after_steps(m, seq![a, b, c]) == after_step(after_step(after_step(m, a), b), c),
{
    assert(seq![a, b, c].drop_last() =~= seq![a, b]);
    assert(seq![a, b, c].last() == c);
    lemma_after_two(m, a, b);
}

/// A side of a conflict.
#[derive(PartialEq, Eq, Structural, Clone, Copy, Debug)]
pub enum Side {
    Ours,
    Theirs,
}

/// The side that `s` names, `ours` or `theirs` around optional whitespace.
pub open spec fn side_named(s: Seq<char>) -> Option<Side> {
    if trim(s) == "ours"@ {
        Some(Side::Ours)
    } else if trim(s) == "theirs"@ {
        Some(Side::Theirs)
    } else {
        None
    }
}

fn side_of(s: &str) -> (r: Option<Side>)
    ensures
        r == side_named(s@),
{
    let t = trim_chars(&chars_of(s));
    if crate::text::eq_str(&t, "ours") {
        Some(Side::Ours)
    } else if crate::text::eq_str(&t, "theirs") {
        Some(Side::Theirs)
    } else {
        None
    }
}

/// The name and content choices of a rename resolution, each `ours` or
/// `theirs`.
pub fn rename_choices(keep_name: &str, keep_content: &str) -> (r: Result<(Side, Side), String>)
    ensures
        side_named(keep_name@) is None ==> (r matches Err(e) && e@
            == "keep_name must be 'ours' or 'theirs'"@),
        side_named(keep_name@) is Some && side_named(keep_content@) is None ==> (r matches Err(e)
            && e@ == "keep_content must be 'ours' or 'theirs'"@),
        side_named(keep_name@) is Some && side_named(keep_content@) is Some ==> r == Ok::<
            (Side, Side),
            String,
        >((side_named(keep_name@)->0, side_named(keep_content@)->0)),
{
    let name = match side_of(keep_name) {
        Some(s) => s,
        None => {
            return Err(crate::text::string_from("keep_name must be 'ours' or 'theirs'"));
        },
    };
    match side_of(keep_content) {
        Some(c) => Ok((name, c)),
        None => Err(crate::text::string_from("keep_content must be 'ours' or 'theirs'")),
    }
}

/// The content a rename resolution keeps: stage 2 for ours; for theirs,
/// stage 3, or else the content at the renamed path on the incoming side.
pub fn rename_content_choice(
    keep_content: Side,
    ours: &Vec<u8>,
    theirs_stage: &Vec<u8>,
    theirs_renamed: &Vec<u8>,
) -> (r: Vec<u8>)
    ensures
        r@ == match keep_content {
            Side::Ours => ours@,
            Side::Theirs => if theirs_stage@.len() > 0 {
                theirs_stage@
            } else {
                theirs_renamed@
            },
        },
{
    match keep_content {
        Side::Ours => ours.clone(),
        Side::Theirs => if theirs_stage.len() > 0 {
            theirs_stage.clone()
        } else {
            theirs_renamed.clone()
        },
    }
}

/// The steps that settle a rename conflict: the kept content goes to the
/// kept name, which is staged, and the other name is discarded.
pub open spec fn rename_steps_of(path: Seq<char>, theirs_path: Seq<char>, keep_name: Side) -> Seq<
    StepView,
> {
    let fin = match keep_name {
        Side::Ours => path,
        Side::Theirs => theirs_path,
    };
    let other = if fin == path {
        theirs_path
    } else {
        path
    };
    seq![StepView::Write(fin), StepView::StageAll(fin), StepView::Discard(other)]
}

fn rename_steps(path: &String, theirs_path: &String, keep_name: Side, text: String) -> (r: Vec<
    ResolveStep,
>)
    ensures
        step_views(r@) == rename_steps_of(path@, theirs_path@, keep_name),
        r@[0] matches ResolveStep::WriteText(_, t) && t@ == text@,
{
    let fin = match keep_name {
        Side::Ours => path.clone(),
        Side::Theirs => theirs_path.clone(),
    };
    let other = if fin == *path {
        theirs_path.clone()
    } else {
        path.clone()
    };
    let mut out: Vec<ResolveStep> = Vec::new();
    out.push(ResolveStep::WriteText(fin.clone(), text));
    out.push(ResolveStep::StageAll(fin));
    out.push(ResolveStep::Discard(other));
    proof {
        assert(step_views(out@) =~= rename_steps_of(path@, theirs_path@, keep_name));
    }
    out
}

pub open spec fn no_theirs_ref_error() -> Seq<char> {
    "Failed to detect their ref (MERGE_HEAD/REBASE_HEAD)."@
}

pub open spec fn no_rename_target_error() -> Seq<char> {
    "Failed to detect rename target for this conflict."@
}

/// Plans the resolution of a rename conflict on `path` from the chosen
/// content: `theirs_ref_found` says a theirs reference resolves, and
/// `theirs_path` is the rename target the rename diff found.
pub fn plan_resolve_rename(
    path: &String,
    theirs_ref_found: bool,
    theirs_path: &Option<String>,
    keep_name: Side,
    content: &Vec<u8>,
) -> (r: Result<Vec<ResolveStep>, String>)
    ensures
        !theirs_ref_found ==> (r matches Err(e) && e@ == no_theirs_ref_error()),
        theirs_ref_found && theirs_path is None ==> (r matches Err(e) && e@
            == no_rename_target_error()),
        theirs_ref_found && theirs_path is Some && content@.len() == 0 ==> (r matches Err(e)
            && e@ == "Failed to load selected content for rename conflict."@),
        theirs_ref_found && theirs_path is Some && content@.len() > 0 && has_nul(content@) ==> (
        r matches Err(e) && e@ == binary_error()),
        theirs_ref_found && theirs_path is Some && content@.len() > 0 && !has_nul(content@) ==> (
        r matches Ok(steps) && step_views(steps@) == rename_steps_of(
            path@,
            theirs_path->0@,
            keep_name,
        ) && (steps@[0] matches ResolveStep::WriteText(_, t) && t@ == utf8_lossy(content@))),
{
    if !theirs_ref_found {
        return Err(crate::text::string_from("Failed to detect their ref (MERGE_HEAD/REBASE_HEAD)."));
    }
    let tp = match theirs_path {
        Some(tp) => tp,
        None => {
            return Err(crate::text::string_from("Failed to detect rename target for this conflict."));
        },
    };
    if content.len() == 0 {
        return Err(crate::text::string_from("Failed to load selected content for rename conflict."));
    }
    let text = match bytes_to_text_or_err(content.as_slice()) {
        Ok(t) => t,
        Err(e) => {
            return Err(e);
        },
    };
    Ok(rename_steps(path, tp, keep_name, text))
}

/// Plans the resolution of a rename conflict on `path` with content the
/// user wrote.
pub fn plan_resolve_rename_with_content(
    path: &String,
    theirs_ref_found: bool,
    theirs_path: &Option<String>,
    keep_name: Side,
    content: &String,
) -> (r: Result<Vec<ResolveStep>, String>)
    ensures
        !theirs_ref_found ==> (r matches Err(e) && e@ == no_theirs_ref_error()),
        theirs_ref_found && theirs_path is None ==> (r matches Err(e) && e@
            == no_rename_target_error()),
        theirs_ref_found && theirs_path is Some && is_blank(content@) ==> (r matches Err(e) && e@
            == "Content is empty."@),
        theirs_ref_found && theirs_path is Some && !is_blank(content@) ==> (r matches Ok(steps)
            && step_views(steps@) == rename_steps_of(path@, theirs_path->0@, keep_name)
            && (steps@[0] matches ResolveStep::WriteText(_, t) && t@ == content@)),
{
    if !theirs_ref_found {
        return Err(crate::text::string_from("Failed to detect their ref (MERGE_HEAD/REBASE_HEAD)."));
    }
    let tp = match theirs_path {
        Some(tp) => tp,
        None => {
            return Err(crate::text::string_from("Failed to detect rename target for this conflict."));
        },
    };
    if is_blank_chars(&chars_of(content.as_str())) {
        return Err(crate::text::string_from("Content is empty."));
    }
    Ok(rename_steps(path, tp, keep_name, content.clone()))
}

/// After a rename resolution the conflicted path is no longer unmerged, the
/// kept name is in the index and the other name is not.
pub proof fn lemma_rename_resolution_keeps_one(
    m: IndexModel,
    path: Seq<char>,
    theirs_path: Seq<char>,
    keep_name: Side,
)
    requires
        path != theirs_path,
    ensures
        ({
            let after = after_steps(m, rename_steps_of(path, theirs_path, keep_name));
            let kept = match keep_name {
                Side::Ours => path,
                Side::Theirs => theirs_path,
            };
            let gone = match keep_name {
                Side::Ours => theirs_path,
                Side::Theirs => path,
            };
            &&& !after.unmerged.contains(path)
            &&& after.indexed.contains(kept)
            &&& !after.indexed.contains(gone)
        }),
{
    let fin = match keep_name {
        Side::Ours => path,
        Side::Theirs => theirs_path,
    };
    let other = if fin == path {
        theirs_path
    } else {
        path
    };
    lemma_after_three(m, StepView::Write(fin), StepView::StageAll(fin), StepView::Discard(other));
}

/// `path` without surrounding whitespace, or an error when nothing is left.
pub fn checked_path(path: &str) -> (r: Result<String, String>)
    ensures
        is_blank(path@) ==> (r matches Err(e) && e@ == "path is empty"@),
        !is_blank(path@) ==> (r matches Ok(p) && p@ == trim(path@)),
{
    let t = trim_chars(&chars_of(path));
    if t.len() == 0 {
        Err(crate::text::string_from("path is empty"))
    } else {
        Ok(string_of(&t))
    }
}

/// Writes the caller's resolved content to `path` and stages it.
pub fn apply_and_stage(path: &String, content: &String) -> (r: Vec<ResolveStep>)
    ensures
        step_views(r@) == seq![StepView::Write(path@), StepView::Stage(path@)],
        r@.len() == 2,
        r@[0] matches ResolveStep::WriteText(_, c) && c@ == content@,
{
    let mut out: Vec<ResolveStep> = Vec::new();
    out.push(ResolveStep::WriteText(path.clone(), content.clone()));
    out.push(ResolveStep::Stage(path.clone()));
    proof {
        assert(step_views(out@) =~= seq![StepView::Write(path@), StepView::Stage(path@)]);
    }
    out
}

} // verus!
