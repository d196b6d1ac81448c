//! Working-copy status: parsing `git status --porcelain -z` and recovering
//! renames that the status call reports as a separate deletion and addition.

use vstd::prelude::*;
use crate::text::{
    chars_of, decode_lossy, is_blank, is_blank_chars, lines, lines_of, opt_view, slice_of,
    split_chars, split_on, string_of, trim, trim_chars, utf8_lossy, views, words, words_of,
};

verus! {

/// One change that the status call reports.
pub struct StatusEntry {
    pub status: String,
    pub path: String,
    pub old_path: Option<String>,
}

/// The value of a [`StatusEntry`].
pub struct StatusRecord {
    pub status: Seq<char>,
    pub path: Seq<char>,
    pub old_path: Option<Seq<char>>,
}

impl View for StatusEntry {
    type V = StatusRecord;

    open spec fn view(&self) -> StatusRecord {
        StatusRecord { status: self.status@, path: self.path@, old_path: opt_view(self.old_path) }
    }
}

pub open spec fn entry_views(v: Seq<StatusEntry>) -> Seq<StatusRecord> {
    v.map_values(|e: StatusEntry| e@)
}

/// A record whose two status letters name a rename or a copy.
pub open spec fn names_rename(rec: Seq<char>) -> bool {
    rec[0] == 'R' || rec[1] == 'R' || rec[0] == 'C' || rec[1] == 'C'
}

/// The entries that the NUL-separated records `toks` describe.  A rename or
/// copy record is followed by a second record that holds the other path.
pub open spec fn status_records(toks: Seq<Seq<char>>) -> Seq<StatusRecord>
    decreases toks.len(),
{
    if toks.len() == 0 {
        seq![]
    } else {
        let rec = toks[0];
        if rec.len() < 4 {
            status_records(toks.drop_first())
        } else {
            let status = rec.subrange(0, 2);
            let first = rec.subrange(3, rec.len() as int);
            if names_rename(rec) {
                let second = if toks.len() > 1 {
                    toks[1]
                } else {
                    Seq::<char>::empty()
                };
                let rest = if toks.len() > 1 {
                    toks.subrange(2, toks.len() as int)
                } else {
                    seq![]
                };
                let here = if !is_blank(first) {
                    seq![
                        StatusRecord {
                            status,
                            path: first,
                            old_path: if is_blank(second) {
                                None
                            } else {
                                Some(second)
                            },
                        },
                    ]
                } else if !is_blank(second) {
                    seq![StatusRecord { status, path: second, old_path: None }]
                } else {
                    seq![]
                };
                here + status_records(rest)
            } else {
                let here = if is_blank(first) {
                    seq![]
                } else {
                    seq![StatusRecord { status, path: first, old_path: None }]
                };
                here + status_records(toks.drop_first())
            }
        }
    }
}

/// The entries of a `git status --porcelain -z` output.
pub open spec fn status_of_output(out: Seq<u8>) -> Seq<StatusRecord> {
    status_records(split_on(utf8_lossy(out), '\0'))
}

/// Parses `git status --porcelain -z --find-renames` output into entries,
/// each with its current path and, for a rename or copy, its previous one.
pub fn parse_status_entries(stdout: &[u8]) -> (r: Vec<StatusEntry>)
    ensures
        entry_views(r@) == status_of_output(stdout@),
{
    let text = decode_lossy(stdout);
    parse_status_text(text.as_str())
}

/// Parses decoded `git status --porcelain -z` output.
pub fn parse_status_text(text: &str) -> (r: Vec<StatusEntry>)
    ensures
        entry_views(r@) == status_records(split_on(text@, '\0')),
{
    let chars = chars_of(text);
    let toks = split_chars(&chars, '\0');
    let ghost ts = views(toks@);
    let n = toks.len();
    let mut out: Vec<StatusEntry> = Vec::new();
    let mut i: usize = 0;
    proof {
        assert(ts.subrange(0, n as int) == ts);
        assert(entry_views(out@) =~= seq![]);
    }
    while i < n
        invariant
            i <= n == toks.len(),
            ts == views(toks@),
            entry_views(out@) + status_records(ts.subrange(i as int, n as int))
                == status_records(ts),
        decreases n - i,
    {
        let ghost tail = ts.subrange(i as int, n as int);
        let ghost before = out@;
        let rec = &toks[i];
        proof {
            assert(tail[0] == rec@);
            assert(tail.drop_first() == ts.subrange(i + 1, n as int));
        }
        if rec.len() < 4 {
            i += 1;
        } else {
            let status = string_of(&slice_of(rec, 0, 2));
            let first = slice_of(rec, 3, rec.len());
            let first_blank = is_blank_chars(&first);
            if rec[0] == 'R' || rec[1] == 'R' || rec[0] == 'C' || rec[1] == 'C' {
                let second = if i + 1 < n {
                    slice_of(&toks[i + 1], 0, toks[i + 1].len())
                } else {
                    Vec::new()
                };
                proof {
                    if i + 1 < n {
                        assert(tail[1] == toks@[i + 1]@);
                        assert(toks@[i + 1]@.subrange(0, toks@[i + 1]@.len() as int)
                            == toks@[i + 1]@);
                        assert(tail.subrange(2, tail.len() as int) == ts.subrange(
                            i + 2,
                            n as int,
                        ));
                    } else {
                        assert(ts.subrange(n as int, n as int) =~= seq![]);
                    }
                }
                let second_blank = is_blank_chars(&second);
                if !first_blank {
                    let old_path = if second_blank {
                        None
                    } else {
                        Some(string_of(&second))
                    };
                    out.push(StatusEntry { status, path: string_of(&first), old_path });
                } else if !second_blank {
                    out.push(StatusEntry { status, path: string_of(&second), old_path: None });
                }
                proof {
                    assert(entry_views(out@) =~= entry_views(before) + (
                    if !is_blank(first@) {
                        seq![
                            StatusRecord {
                                status: rec@.subrange(0, 2),
                                path: first@,
                                old_path: if is_blank(second@) {
                                    None
                                } else {
                                    Some(second@)
                                },
                            },
                        ]
                    } else if !is_blank(second@) {
                        seq![
                            StatusRecord {
                                status: rec@.subrange(0, 2),
                                path: second@,
                                old_path: None,
                            },
                        ]
                    } else {
                        seq![]
                    }));
                }
                i = if i + 1 < n {
                    i + 2
                } else {
                    n
                };
            } else {
                if !first_blank {
                    out.push(StatusEntry { status, path: string_of(&first), old_path: None });
                }
                proof {
                    assert(entry_views(out@) =~= entry_views(before) + (if is_blank(first@) {
                        seq![]
                    } else {
                        seq![
                            StatusRecord {
                                status: rec@.subrange(0, 2),
                                path: first@,
                                old_path: None,
                            },
                        ]
                    }));
                }
                i += 1;
            }
        }
    }
    proof {
        assert(ts.subrange(n as int, n as int) =~= seq![]);
        assert(ts.subrange(0, n as int) == ts);
    }
    out
}

pub open spec fn first_letter(st: Seq<char>) -> char {
    if st.len() > 0 {
        st[0]
    } else {
        ' '
    }
}

pub open spec fn second_letter(st: Seq<char>) -> char {
    if st.len() > 1 {
        st[1]
    } else {
        ' '
    }
}

pub open spec fn is_rename_code(st: Seq<char>) -> bool {
    let x = first_letter(st);
    let y = second_letter(st);
    x == 'R' || y == 'R' || x == 'C' || y == 'C'
}

/// A status that reports the path as deleted.
pub open spec fn is_deletion(st: Seq<char>) -> bool {
    !is_rename_code(st) && (first_letter(st) == 'D' || second_letter(st) == 'D')
}

/// A status that reports the path as added or untracked.
pub open spec fn is_addition(st: Seq<char>) -> bool {
    &&& !is_rename_code(st)
    &&& ((st.len() == 2 && st[0] == '?' && st[1] == '?') || first_letter(st) == 'A'
        || second_letter(st) == 'A')
}

pub open spec fn opt_views(v: Seq<Option<String>>) -> Seq<Option<Seq<char>>> {
    v.map_values(|o: Option<String>| opt_view(o))
}

/// The object id given for entry `k`, if any.
pub open spec fn hash_at(v: Seq<Option<Seq<char>>>, k: int) -> Option<Seq<char>> {
    if 0 <= k < v.len() {
        v[k]
    } else {
        None
    }
}

/// Entry `k` is a deletion whose committed object id is `h`.
pub open spec fn deleted_with(
    es: Seq<StatusRecord>,
    hh: Seq<Option<Seq<char>>>,
    k: int,
    h: Seq<char>,
) -> bool {
    is_deletion(es[k].status) && hash_at(hh, k) == Some(h)
}

/// The first of the entries below `n` that is a deletion with object id `h`.
pub open spec fn deletion_upto(
    es: Seq<StatusRecord>,
    hh: Seq<Option<Seq<char>>>,
    h: Seq<char>,
    n: int,
) -> Option<int>
    decreases n,
{
    if n <= 0 {
        None
    } else {
        match deletion_upto(es, hh, h, n - 1) {
            Some(k) => Some(k),
            None => if deleted_with(es, hh, n - 1, h) {
                Some(n - 1)
            } else {
                None
            },
        }
    }
}

/// The entry whose deletion an addition with content id `h` would undo.
pub open spec fn deletion_for(
    es: Seq<StatusRecord>,
    hh: Seq<Option<Seq<char>>>,
    h: Seq<char>,
) -> Option<int> {
    deletion_upto(es, hh, h, es.len() as int)
}

/// The deletion that addition `a` takes, given the deletions `m` that
/// earlier additions took.
pub open spec fn partner_given(
    es: Seq<StatusRecord>,
    hh: Seq<Option<Seq<char>>>,
    wh: Seq<Option<Seq<char>>>,
    a: int,
    m: Set<int>,
) -> Option<int> {
    if is_addition(es[a].status) && hash_at(wh, a) is Some {
        match deletion_for(es, hh, hash_at(wh, a)->0) {
            Some(d) => if m.contains(d) {
                None
            } else {
                Some(d)
            },
            None => None,
        }
    } else {
        None
    }
}

/// The deletions that the additions below `a` took.
pub open spec fn taken_before(
    es: Seq<StatusRecord>,
    hh: Seq<Option<Seq<char>>>,
    wh: Seq<Option<Seq<char>>>,
    a: int,
) -> Set<int>
    decreases a,
{
    if a <= 0 {
        Set::empty()
    } else {
        let m = taken_before(es, hh, wh, a - 1);
        match partner_given(es, hh, wh, a - 1, m) {
            Some(d) => m.insert(d),
            None => m,
        }
    }
}

/// The deletion that addition `a` turns into a rename, if any.
pub open spec fn partner(
    es: Seq<StatusRecord>,
    hh: Seq<Option<Seq<char>>>,
    wh: Seq<Option<Seq<char>>>,
    a: int,
) -> Option<int> {
    partner_given(es, hh, wh, a, taken_before(es, hh, wh, a))
}

/// The deletions that some addition took.
pub open spec fn taken(
    es: Seq<StatusRecord>,
    hh: Seq<Option<Seq<char>>>,
    wh: Seq<Option<Seq<char>>>,
) -> Set<int> {
    taken_before(es, hh, wh, es.len() as int)
}

/// Entry `k` after reconciliation.
pub open spec fn rewritten(
    es: Seq<StatusRecord>,
    hh: Seq<Option<Seq<char>>>,
    wh: Seq<Option<Seq<char>>>,
    k: int,
) -> StatusRecord {
    match partner(es, hh, wh, k) {
        Some(d) => StatusRecord {
            status: seq!['R', ' '],
            path: es[k].path,
            old_path: Some(es[d].path),
        },
        None => es[k],
    }
}

pub open spec fn reconciled_upto(
    es: Seq<StatusRecord>,
    hh: Seq<Option<Seq<char>>>,
    wh: Seq<Option<Seq<char>>>,
    k: int,
) -> Seq<StatusRecord>
    decreases k,
{
    if k <= 0 {
        seq![]
    } else {
        let r = reconciled_upto(es, hh, wh, k - 1);
        if taken(es, hh, wh).contains(k - 1) {
            r
        } else {
            r.push(rewritten(es, hh, wh, k - 1))
        }
    }
}

/// The entries after renames were recovered: each addition whose content id
/// equals the committed object id of a deletion not yet taken becomes a
/// rename from that deletion's path, and the taken deletions are dropped.
pub open spec fn reconciled(
    es: Seq<StatusRecord>,
    hh: Seq<Option<Seq<char>>>,
    wh: Seq<Option<Seq<char>>>,
) -> Seq<StatusRecord> {
    reconciled_upto(es, hh, wh, es.len() as int)
}

pub proof fn lemma_taken_are_deletions(
    es: Seq<StatusRecord>,
    hh: Seq<Option<Seq<char>>>,
    wh: Seq<Option<Seq<char>>>,
    a: int,
    d: int,
)
    requires
        taken_before(es, hh, wh, a).contains(d),
    ensures
        0 <= d < es.len(),
        is_deletion(es[d].status),
        exists|j: int| 0 <= j < a && #[trigger] partner(es, hh, wh, j) == Some(d),
    decreases a,
{
    if a > 0 {
        let m = taken_before(es, hh, wh, a - 1);
        if m.contains(d) {
            lemma_taken_are_deletions(es, hh, wh, a - 1, d);
            let j = choose|j: int| 0 <= j < a - 1 && #[trigger] partner(es, hh, wh, j) == Some(d);
            assert(partner(es, hh, wh, j) == Some(d));
        } else {
            assert(partner(es, hh, wh, a - 1) == Some(d));
            let h = hash_at(wh, a - 1)->0;
            lemma_deletion_upto(es, hh, h, es.len() as int);
        }
    }
}

pub proof fn lemma_deletion_upto(
    es: Seq<StatusRecord>,
    hh: Seq<Option<Seq<char>>>,
    h: Seq<char>,
    n: int,
)
    ensures
        deletion_upto(es, hh, h, n) matches Some(k) ==> 0 <= k < n && deleted_with(es, hh, k, h),
        deletion_upto(es, hh, h, n) is None ==> forall|k: int|
            0 <= k < n ==> !deleted_with(es, hh, k, h),
    decreases n,
{
    if n > 0 {
        lemma_deletion_upto(es, hh, h, n - 1);
    }
}

pub proof fn lemma_deletion_upto_stays(
    es: Seq<StatusRecord>,
    hh: Seq<Option<Seq<char>>>,
    h: Seq<char>,
    n: int,
    m: int,
)
    requires
        n <= m,
        deletion_upto(es, hh, h, n) is Some,
    ensures
        deletion_upto(es, hh, h, m) == deletion_upto(es, hh, h, n),
    decreases m - n,
{
    if n < m {
        lemma_deletion_upto_stays(es, hh, h, n, m - 1);
    }
}

pub proof fn lemma_taken_grows(
    es: Seq<StatusRecord>,
    hh: Seq<Option<Seq<char>>>,
    wh: Seq<Option<Seq<char>>>,
    a: int,
    b: int,
    d: int,
)
    requires
        a <= b,
        taken_before(es, hh, wh, a).contains(d),
    ensures
        taken_before(es, hh, wh, b).contains(d),
    decreases b - a,
{
    if a < b {
        lemma_taken_grows(es, hh, wh, a, b - 1, d);
    }
}


fn status_letters(st: &String) -> (r: (char, char, bool))
    ensures
        r.0 == first_letter(st@),
        r.1 == second_letter(st@),
        r.2 == (st@.len() == 2 && st@[0] == '?' && st@[1] == '?'),
{
    let v = chars_of(st.as_str());
    let x = if v.len() > 0 {
        v[0]
    } else {
        ' '
    };
    let y = if v.len() > 1 {
        v[1]
    } else {
        ' '
    };
    (x, y, v.len() == 2 && v[0] == '?' && v[1] == '?')
}

/// Whether `st` reports a deletion.
pub fn status_is_deletion(st: &String) -> (r: bool)
    ensures
        r == is_deletion(st@),
{
    let (x, y, _) = status_letters(st);
    !(x == 'R' || y == 'R' || x == 'C' || y == 'C') && (x == 'D' || y == 'D')
}

/// Whether `st` reports an addition or an untracked file.
pub fn status_is_addition(st: &String) -> (r: bool)
    ensures
        r == is_addition(st@),
{
    let (x, y, untracked) = status_letters(st);
    !(x == 'R' || y == 'R' || x == 'C' || y == 'C') && (untracked || x == 'A' || y == 'A')
}

fn hash_of(v: &Vec<Option<String>>, k: usize) -> (r: Option<&String>)
    ensures
        r matches Some(x) ==> hash_at(opt_views(v@), k as int) == Some(x@),
        r is None ==> hash_at(opt_views(v@), k as int) is None,
{
    if k < v.len() {
        match &v[k] {
            Some(x) => Some(x),
            None => None,
        }
    } else {
        None
    }
}

fn find_deletion(entries: &Vec<StatusEntry>, head_hashes: &Vec<Option<String>>, h: &String) -> (r:
    Option<usize>)
    ensures
        r matches Some(d) ==> deletion_for(entry_views(entries@), opt_views(head_hashes@), h@)
            == Some(d as int),
        r is None ==> deletion_for(entry_views(entries@), opt_views(head_hashes@), h@) is None,
{
    let ghost es = entry_views(entries@);
    let ghost hh = opt_views(head_hashes@);
    let mut k: usize = 0;
    while k < entries.len()
        invariant
            k <= entries.len(),
            es == entry_views(entries@),
            hh == opt_views(head_hashes@),
            deletion_upto(es, hh, h@, k as int) is None,
        decreases entries.len() - k,
    {
        proof {
            assert(es[k as int] == entries@[k as int]@);
        }
        if status_is_deletion(&entries[k].status) {
            match hash_of(head_hashes, k) {
                Some(x) => {
                    if *x == *h {
                        proof {
                            assert(deleted_with(es, hh, k as int, h@));
                            lemma_deletion_upto_stays(es, hh, h@, k as int + 1, entries.len() as int);
                        }
                        return Some(k);
                    }
                },
                None => {},
            }
        }
        proof {
            assert(!deleted_with(es, hh, k as int, h@));
        }
        k += 1;
    }
    None
}

/// The paths of the entries below `k` whose status satisfies `deletions`
/// (deletions when true, additions when false), in order.
pub open spec fn probe_paths(es: Seq<StatusRecord>, k: int, deletions: bool) -> Seq<Seq<char>>
    decreases k,
{
    if k <= 0 {
        seq![]
    } else {
        let r = probe_paths(es, k - 1, deletions);
        let st = es[k - 1].status;
        if (deletions && is_deletion(st)) || (!deletions && is_addition(st)) {
            r.push(es[k - 1].path)
        } else {
            r
        }
    }
}

pub open spec fn string_views(v: Seq<String>) -> Seq<Seq<char>> {
    v.map_values(|x: String| x@)
}

/// The paths whose committed object ids (`deletions`) or whose content ids
/// (otherwise) the rename recovery needs, in entry order.
pub fn rename_probe_paths(entries: &Vec<StatusEntry>, deletions: bool) -> (r: Vec<String>)
    ensures
        string_views(r@) == probe_paths(entry_views(entries@), entries.len() as int, deletions),
{
    let ghost es = entry_views(entries@);
    let mut out: Vec<String> = Vec::new();
    let mut k: usize = 0;
    while k < entries.len()
        invariant
            k <= entries.len(),
            es == entry_views(entries@),
            string_views(out@) == probe_paths(es, k as int, deletions),
        decreases entries.len() - k,
    {
        let ghost before = out@;
        let st = &entries[k].status;
        proof {
            assert(es[k as int] == entries@[k as int]@);
        }
        if (deletions && status_is_deletion(st)) || (!deletions && status_is_addition(st)) {
            out.push(entries[k].path.clone());
            proof {
                assert(string_views(out@) =~= string_views(before).push(entries@[k as int].path@));
            }
        }
        k += 1;
    }
    out
}

/// The path and object id that a `git ls-tree` line
/// `<mode> <type> <id>\t<path>` names.
pub open spec fn ls_tree_line(l: Seq<char>) -> Option<(Seq<char>, Seq<char>)> {
    if exists|t: int| 0 <= t < l.len() && l[t] == '\t' {
        let t = choose|t: int|
            0 <= t < l.len() && l[t] == '\t' && forall|u: int| 0 <= u < t ==> l[u] != '\t';
        let parts = words(l.subrange(0, t));
        if parts.len() >= 3 {
            Some((l.subrange(t + 1, l.len() as int), parts[2]))
        } else {
            None
        }
    } else {
        None
    }
}

/// The object id that the last line of `ls` naming `p` gives.
pub open spec fn ls_tree_id(ls: Seq<Seq<char>>, p: Seq<char>) -> Option<Seq<char>>
    decreases ls.len(),
{
    if ls.len() == 0 {
        None
    } else {
        match ls_tree_line(ls.last()) {
            Some(pair) => if pair.0 == p {
                Some(pair.1)
            } else {
                ls_tree_id(ls.drop_last(), p)
            },
            None => ls_tree_id(ls.drop_last(), p),
        }
    }
}

/// The committed object id that `git ls-tree HEAD` output gives for each
/// deleted entry.
pub open spec fn head_ids(es: Seq<StatusRecord>, ls_tree: Seq<char>) -> Seq<Option<Seq<char>>> {
    Seq::new(
        es.len(),
        |k: int|
            if is_deletion(es[k].status) {
                ls_tree_id(lines(ls_tree), es[k].path)
            } else {
                None
            },
    )
}

/// How many entries below `k` are additions.
pub open spec fn additions_before(es: Seq<StatusRecord>, k: int) -> int
    decreases k,
{
    if k <= 0 {
        0
    } else {
        additions_before(es, k - 1) + if is_addition(es[k - 1].status) {
            1int
        } else {
            0int
        }
    }
}

/// The content id that `git hash-object` output, one line per added path in
/// entry order, gives for each added entry.
pub open spec fn work_ids(es: Seq<StatusRecord>, out: Seq<char>) -> Seq<Option<Seq<char>>> {
    Seq::new(
        es.len(),
        |k: int|
            {
                let i = additions_before(es, k);
                let ls = lines(out);
                if is_addition(es[k].status) && i < ls.len() && trim(ls[i]).len() > 0 {
                    Some(trim(ls[i]))
                } else {
                    None
                }
            },
    )
}

fn ls_tree_line_parse(l: &Vec<char>) -> (r: Option<(Vec<char>, Vec<char>)>)
    ensures
        match r {
            Some(pair) => ls_tree_line(l@) == Some((pair.0@, pair.1@)),
            None => ls_tree_line(l@) is None,
        },
{
    match crate::text::find_char(l, '\t') {
        Some(t) => {
            proof {
                let c = choose|c: int|
                    0 <= c < l@.len() && l@[c] == '\t' && forall|u: int|
                        0 <= u < c ==> l@[u] != '\t';
                assert(0 <= c < l@.len() && l@[c] == '\t' && forall|u: int|
                    0 <= u < c ==> l@[u] != '\t');
                if c < t {
                } else if c > t {
                    assert(l@[t as int] == '\t');
                }
                assert(c == t);
            }
            let meta = slice_of(l, 0, t);
            let parts = words_of(&meta);
            if parts.len() >= 3 {
                let path = slice_of(l, t + 1, l.len());
                let id = slice_of(&parts[2], 0, parts[2].len());
                proof {
                    assert(parts@[2]@.subrange(0, parts@[2]@.len() as int) == parts@[2]@);
                    assert(views(parts@)[2] == parts@[2]@);
                }
                Some((path, id))
            } else {
                None
            }
        },
        None => None,
    }
}

fn ls_tree_id_of(ls: &Vec<Vec<char>>, p: &Vec<char>) -> (r: Option<String>)
    ensures
        opt_view(r) == ls_tree_id(views(ls@), p@),
{
    let mut i: usize = ls.len();
    proof {
        assert(views(ls@).take(ls.len() as int) == views(ls@));
    }
    while i > 0
        invariant
            i <= ls.len(),
            ls_tree_id(views(ls@), p@) == ls_tree_id(views(ls@).take(i as int), p@),
        decreases i,
    {
        let ghost t = views(ls@).take(i as int);
        proof {
            assert(t.last() == ls@[i - 1]@);
            assert(t.drop_last() == views(ls@).take(i - 1));
        }
        match ls_tree_line_parse(&ls[i - 1]) {
            Some(pair) => {
                if crate::text::has_prefix(&pair.0, p) && pair.0.len() == p.len() {
                    proof {
                        assert(pair.0@ == pair.0@.subrange(0, p@.len() as int));
                    }
                    return Some(string_of(&pair.1));
                }
                proof {
                    if pair.0@ == p@ {
                        assert(pair.0@.subrange(0, p@.len() as int) == p@);
                    }
                }
            },
            None => {},
        }
        i -= 1;
    }
    proof {
        assert(views(ls@).take(0) =~= seq![]);
    }
    None
}

/// For each entry, the committed object id that `git ls-tree HEAD -- <paths>`
/// output gives, where the entry is a deletion.
pub fn head_ids_from_ls_tree(entries: &Vec<StatusEntry>, ls_tree: &str) -> (r: Vec<Option<String>>)
    ensures
        opt_views(r@) == head_ids(entry_views(entries@), ls_tree@),
{
    let ghost es = entry_views(entries@);
    let chars = chars_of(ls_tree);
    let ls = lines_of(&chars);
    let mut out: Vec<Option<String>> = Vec::new();
    let mut k: usize = 0;
    while k < entries.len()
        invariant
            k <= entries.len(),
            es == entry_views(entries@),
            views(ls@) == lines(ls_tree@),
            opt_views(out@) == head_ids(es, ls_tree@).take(k as int),
        decreases entries.len() - k,
    {
        let ghost before = out@;
        proof {
            assert(es[k as int] == entries@[k as int]@);
        }
        let id = if status_is_deletion(&entries[k].status) {
            let p = chars_of(entries[k].path.as_str());
            ls_tree_id_of(&ls, &p)
        } else {
            None
        };
        out.push(id);
        proof {
            assert(opt_views(out@) =~= opt_views(before).push(opt_view(id)));
            assert(head_ids(es, ls_tree@).take(k + 1) =~= head_ids(es, ls_tree@).take(
                k as int,
            ).push(head_ids(es, ls_tree@)[k as int]));
        }
        k += 1;
    }
    proof {
        assert(head_ids(es, ls_tree@).take(entries.len() as int) == head_ids(es, ls_tree@));
    }
    out
}

/// For each entry, the content id that `git hash-object -- <paths>` output
/// gives, where the entry is an addition; the output holds one line per
/// added path, in entry order.
pub fn work_ids_from_hash_object(entries: &Vec<StatusEntry>, hash_object: &str) -> (r: Vec<
    Option<String>,
>)
    ensures
        opt_views(r@) == work_ids(entry_views(entries@), hash_object@),
{
    let ghost es = entry_views(entries@);
    let chars = chars_of(hash_object);
    let ls = lines_of(&chars);
    let mut out: Vec<Option<String>> = Vec::new();
    let mut rank: usize = 0;
    let mut k: usize = 0;
    while k < entries.len()
        invariant
            k <= entries.len(),
            rank <= k,
            rank == additions_before(es, k as int),
            es == entry_views(entries@),
            views(ls@) == lines(hash_object@),
            opt_views(out@) == work_ids(es, hash_object@).take(k as int),
        decreases entries.len() - k,
    {
        let ghost before = out@;
        proof {
            assert(es[k as int] == entries@[k as int]@);
        }
        let added = status_is_addition(&entries[k].status);
        let mut id: Option<String> = None;
        if added && rank < ls.len() {
            let t = trim_chars(&ls[rank]);
            if t.len() > 0 {
                id = Some(string_of(&t));
            }
        }
        out.push(id);
        proof {
            assert(opt_views(out@) =~= opt_views(before).push(opt_view(id)));
            assert(work_ids(es, hash_object@).take(k + 1) =~= work_ids(es, hash_object@).take(
                k as int,
            ).push(work_ids(es, hash_object@)[k as int]));
        }
        if added {
            rank += 1;
        }
        k += 1;
    }
    proof {
        assert(work_ids(es, hash_object@).take(entries.len() as int) == work_ids(
            es,
            hash_object@,
        ));
    }
    out
}

/// The status entries with renames recovered from the outputs of
/// `git ls-tree HEAD` over the deleted paths and `git hash-object` over the
/// added ones.
pub fn detect_unstaged_renames(entries: Vec<StatusEntry>, ls_tree: &str, hash_object: &str) -> (r: Vec<
    StatusEntry,
>)
    ensures
        entry_views(r@) == reconciled(
            entry_views(entries@),
            head_ids(entry_views(entries@), ls_tree@),
            work_ids(entry_views(entries@), hash_object@),
        ),
{
    let hh = head_ids_from_ls_tree(&entries, ls_tree);
    let wh = work_ids_from_hash_object(&entries, hash_object);
    reconcile_renames(entries, &hh, &wh)
}

/// Recovers renames among the entries: `head_hashes[k]` is the committed
/// object id of entry `k` and `work_hashes[k]` the content id of its file,
/// where the caller could learn them.  See [`reconciled`].
pub fn reconcile_renames(
    entries: Vec<StatusEntry>,
    head_hashes: &Vec<Option<String>>,
    work_hashes: &Vec<Option<String>>,
) -> (r: Vec<StatusEntry>)
    ensures
        entry_views(r@) == reconciled(
            entry_views(entries@),
            opt_views(head_hashes@),
            opt_views(work_hashes@),
        ),
{
    let ghost es = entry_views(entries@);
    let ghost hh = opt_views(head_hashes@);
    let ghost wh = opt_views(work_hashes@);
    let n = entries.len();
    let mut taken_flags: Vec<bool> = Vec::new();
    let mut partners: Vec<Option<usize>> = Vec::new();
    let mut i: usize = 0;
    while i < n
        invariant
            i <= n == entries.len(),
            taken_flags.len() == i,
            forall|d: int| 0 <= d < i ==> !taken_flags@[d],
        decreases n - i,
    {
        taken_flags.push(false);
        i += 1;
    }
    let mut a: usize = 0;
    while a < n
        invariant
            a <= n == entries.len() == taken_flags.len(),
            es == entry_views(entries@),
            hh == opt_views(head_hashes@),
            wh == opt_views(work_hashes@),
            partners.len() == a,
            forall|d: int| 0 <= d < n ==> taken_flags@[d] == taken_before(es, hh, wh, a as int).contains(d),
            forall|j: int| 0 <= j < a ==> match #[trigger] partners@[j] {
                Some(d) => partner(es, hh, wh, j) == Some(d as int),
                None => partner(es, hh, wh, j) is None,
            },
        decreases n - a,
    {
        let ghost m = taken_before(es, hh, wh, a as int);
        let mut p: Option<usize> = None;
        if status_is_addition(&entries[a].status) {
            match hash_of(work_hashes, a) {
                Some(h) => {
                    match find_deletion(&entries, head_hashes, h) {
                        Some(d) => {
                            proof {
                                lemma_deletion_upto(es, hh, h@, n as int);
                            }
                            if !taken_flags[d] {
                                p = Some(d);
                            }
                        },
                        None => {},
                    }
                },
                None => {},
            }
        }
        proof {
            match p {
                Some(d) => assert(partner(es, hh, wh, a as int) == Some(d as int)),
                None => assert(partner(es, hh, wh, a as int) is None),
            }
            assert forall|d: int| m.contains(d) implies 0 <= d < n by {
                lemma_taken_are_deletions(es, hh, wh, a as int, d);
            }
        }
        match p {
            Some(d) => {
                taken_flags.set(d, true);
            },
            None => {},
        }
        partners.push(p);
        a += 1;
    }
    let mut out: Vec<StatusEntry> = Vec::new();
    let mut entries = entries;
    let mut k: usize = 0;
    proof {
        assert(entry_views(out@) =~= seq![]);
    }
    while k < n
        invariant
            k <= n == entries.len() == taken_flags.len() == partners.len(),
            es == entry_views(entries@),
            forall|d: int| 0 <= d < n ==> taken_flags@[d] == taken(es, hh, wh).contains(d),
            forall|j: int| 0 <= j < n ==> match #[trigger] partners@[j] {
                Some(d) => partner(es, hh, wh, j) == Some(d as int),
                None => partner(es, hh, wh, j) is None,
            },
            entry_views(out@) == reconciled_upto(es, hh, wh, k as int),
        decreases n - k,
    {
        let ghost before = out@;
        if !taken_flags[k] {
            let e = &entries[k];
            let rec = match partners[k] {
                Some(d) => {
                    proof {
                        lemma_taken_are_deletions(es, hh, wh, k as int + 1, d as int);
                        assert(taken_before(es, hh, wh, k as int + 1).contains(d as int));
                    }
                    let old = entries[d].path.clone();
                    StatusEntry {
                        status: string_of(&vec!['R', ' ']),
                        path: e.path.clone(),
                        old_path: Some(old),
                    }
                },
                None => StatusEntry {
                    status: e.status.clone(),
                    path: e.path.clone(),
                    old_path: e.old_path.clone(),
                },
            };
            out.push(rec);
            proof {
                assert(entry_views(out@) =~= entry_views(before).push(rewritten(es, hh, wh, k as int)));
            }
        }
        k += 1;
    }
    out
}

/// Entry `j` of the first `k` reconciled entries is the rewrite of an entry
/// below `k` that no addition took.
pub open spec fn comes_from(
    es: Seq<StatusRecord>,
    hh: Seq<Option<Seq<char>>>,
    wh: Seq<Option<Seq<char>>>,
    k: int,
    j: int,
) -> bool {
    exists|s: int|
        0 <= s < k && !taken(es, hh, wh).contains(s) && reconciled_upto(es, hh, wh, k)[j]
            == #[trigger] rewritten(es, hh, wh, s)
}

pub proof fn lemma_reconciled_sources(
    es: Seq<StatusRecord>,
    hh: Seq<Option<Seq<char>>>,
    wh: Seq<Option<Seq<char>>>,
    k: int,
)
    requires
        0 <= k <= es.len(),
    ensures
        forall|j: int|
            0 <= j < reconciled_upto(es, hh, wh, k).len() ==> #[trigger] comes_from(
                es,
                hh,
                wh,
                k,
                j,
            ),
        forall|s: int|
            0 <= s < k && !taken(es, hh, wh).contains(s) ==> exists|j: int|
                0 <= j < reconciled_upto(es, hh, wh, k).len() && reconciled_upto(es, hh, wh, k)[j]
                    == #[trigger] rewritten(es, hh, wh, s),
    decreases k,
{
    if k > 0 {
        lemma_reconciled_sources(es, hh, wh, k - 1);
        let r = reconciled_upto(es, hh, wh, k - 1);
        let out = reconciled_upto(es, hh, wh, k);
        if taken(es, hh, wh).contains(k - 1) {
            assert(out == r);
            assert forall|j: int| 0 <= j < out.len() implies #[trigger] comes_from(
                es,
                hh,
                wh,
                k,
                j,
            ) by {
                assert(comes_from(es, hh, wh, k - 1, j));
            }
        } else {
            assert(out == r.push(rewritten(es, hh, wh, k - 1)));
            assert forall|j: int| 0 <= j < out.len() implies #[trigger] comes_from(
                es,
                hh,
                wh,
                k,
                j,
            ) by {
                if j < r.len() {
                    assert(comes_from(es, hh, wh, k - 1, j));
                    assert(out[j] == r[j]);
                } else {
                    assert(out[j] == rewritten(es, hh, wh, k - 1));
                }
            }
            assert forall|s: int| 0 <= s < k && !taken(es, hh, wh).contains(s) implies exists|j: int|
                0 <= j < out.len() && out[j] == #[trigger] rewritten(es, hh, wh, s) by {
                if s < k - 1 {
                    let j = choose|j: int|
                        0 <= j < r.len() && r[j] == #[trigger] rewritten(es, hh, wh, s);
                    assert(out[j] == r[j]);
                } else {
                    assert(out[r.len() as int] == rewritten(es, hh, wh, s));
                }
            }
        }
    }
}

/// A file that was deleted and whose content reappears, byte for byte, as
/// one added or untracked file elsewhere is reported once, as a rename from
/// its old path, and no entry for the old path is left.
pub proof fn lemma_moved_file_is_one_rename(
    es: Seq<StatusRecord>,
    hh: Seq<Option<Seq<char>>>,
    wh: Seq<Option<Seq<char>>>,
    d: int,
    a: int,
    h: Seq<char>,
)
    requires
        0 <= d < es.len(),
        0 <= a < es.len(),
        a != d,
        forall|i: int, j: int| 0 <= i < j < es.len() ==> es[i].path != es[j].path,
        deleted_with(es, hh, d, h),
        forall|k: int| 0 <= k < es.len() && k != d ==> !deleted_with(es, hh, k, h),
        is_addition(es[a].status),
        !is_deletion(es[a].status),
        hash_at(wh, a) == Some(h),
        forall|k: int|
            0 <= k < es.len() && k != a && is_addition(es[k].status) ==> hash_at(wh, k) != Some(
                h,
            ),
    ensures
        ({
            let out = reconciled(es, hh, wh);
            let moved = StatusRecord {
                status: seq!['R', ' '],
                path: es[a].path,
                old_path: Some(es[d].path),
            };
            &&& exists|j: int| 0 <= j < out.len() && out[j] == moved
            &&& forall|j: int| 0 <= j < out.len() && out[j].path == es[a].path ==> out[j] == moved
            &&& forall|j: int| 0 <= j < out.len() ==> out[j].path != es[d].path
        }),
{
    let n = es.len() as int;
    let out = reconciled(es, hh, wh);
    let moved = StatusRecord { status: seq!['R', ' '], path: es[a].path, old_path: Some(es[d].path) };
    lemma_deletion_upto(es, hh, h, n);
    assert(deletion_for(es, hh, h) == Some(d));
    if taken_before(es, hh, wh, a).contains(d) {
        lemma_taken_are_deletions(es, hh, wh, a, d);
        let j = choose|j: int| 0 <= j < a && #[trigger] partner(es, hh, wh, j) == Some(d);
        let hj = hash_at(wh, j)->0;
        lemma_deletion_upto(es, hh, hj, n);
        assert(deleted_with(es, hh, d, hj));
        assert(false);
    }
    assert(partner(es, hh, wh, a) == Some(d));
    assert(taken_before(es, hh, wh, a + 1).contains(d));
    lemma_taken_grows(es, hh, wh, a + 1, n, d);
    if taken(es, hh, wh).contains(a) {
        lemma_taken_are_deletions(es, hh, wh, n, a);
    }
    assert(rewritten(es, hh, wh, a) == moved);
    lemma_reconciled_sources(es, hh, wh, n);
    assert(exists|j: int| 0 <= j < out.len() && out[j] == rewritten(es, hh, wh, a));
    assert forall|j: int| 0 <= j < out.len() && out[j].path == es[a].path implies out[j]
        == moved by {
        assert(comes_from(es, hh, wh, n, j));
        let s = choose|s: int|
            0 <= s < n && !taken(es, hh, wh).contains(s) && out[j] == #[trigger] rewritten(
                es,
                hh,
                wh,
                s,
            );
        assert(rewritten(es, hh, wh, s).path == es[s].path);
        if s != a {
            if s < a {
                assert(es[s].path != es[a].path);
            } else {
                assert(es[a].path != es[s].path);
            }
        }
    }
    assert forall|j: int| 0 <= j < out.len() implies out[j].path != es[d].path by {
        assert(comes_from(es, hh, wh, n, j));
        let s = choose|s: int|
            0 <= s < n && !taken(es, hh, wh).contains(s) && out[j] == #[trigger] rewritten(
                es,
                hh,
                wh,
                s,
            );
        assert(rewritten(es, hh, wh, s).path == es[s].path);
        if s < d {
            assert(es[s].path != es[d].path);
        } else if s > d {
            assert(es[d].path != es[s].path);
        }
    }
}

/// The entries after a move: the deletion `d` is gone and the addition `a`
/// has become a rename from the deleted path; every other entry is
/// unchanged and keeps its place.
pub open spec fn moved_shape(es: Seq<StatusRecord>, d: int, a: int) -> Seq<StatusRecord> {
    Seq::new(
        (es.len() - 1) as nat,
        |j: int|
            {
                let k = if j < d {
                    j
                } else {
                    j + 1
                };
                if k == a {
                    StatusRecord { status: seq!['R', ' '], path: es[a].path, old_path: Some(es[d].path) }
                } else {
                    es[k]
                }
            },
    )
}

proof fn lemma_moved_taken(
    es: Seq<StatusRecord>,
    hh: Seq<Option<Seq<char>>>,
    wh: Seq<Option<Seq<char>>>,
    d: int,
    a: int,
    h: Seq<char>,
    m: int,
)
    requires
        0 <= d < es.len(),
        0 <= a < es.len(),
        a != d,
        deleted_with(es, hh, d, h),
        forall|k: int| 0 <= k < es.len() && k != d ==> !is_deletion(#[trigger] es[k].status),
        hash_at(wh, a) == Some(h),
        is_addition(es[a].status),
        forall|k: int| 0 <= k < es.len() && k != a ==> !is_addition(#[trigger] es[k].status),
        0 <= m <= es.len(),
    ensures
        forall|x: int| #[trigger] taken_before(es, hh, wh, m).contains(x) <==> (x == d && a < m),
        partner(es, hh, wh, a) == Some(d),
        forall|k: int| 0 <= k < es.len() && k != a ==> #[trigger] partner(es, hh, wh, k) is None,
    decreases m,
{
    let n = es.len() as int;
    lemma_deletion_upto(es, hh, h, n);
    match deletion_upto(es, hh, h, n) {
        Some(k) => {
            if k != d {
                assert(!is_deletion(es[k].status));
            }
        },
        None => {
            assert(!deleted_with(es, hh, d, h));
        },
    }
    assert(deletion_for(es, hh, h) == Some(d));
    assert forall|k: int| 0 <= k < es.len() && k != a implies #[trigger] partner(es, hh, wh, k) is None by {
        assert(!is_addition(es[k].status));
    }
    if taken_before(es, hh, wh, a).contains(d) {
        lemma_taken_are_deletions(es, hh, wh, a, d);
        let j = choose|j: int| 0 <= j < a && #[trigger] partner(es, hh, wh, j) == Some(d);
        assert(partner(es, hh, wh, j) is None);
    }
    assert(partner(es, hh, wh, a) == Some(d));
    assert forall|x: int| #[trigger] taken_before(es, hh, wh, m).contains(x) <==> (x == d && a < m) by {
        if taken_before(es, hh, wh, m).contains(x) {
            lemma_taken_are_deletions(es, hh, wh, m, x);
            let j = choose|j: int| 0 <= j < m && #[trigger] partner(es, hh, wh, j) == Some(x);
            if j != a {
                assert(partner(es, hh, wh, j) is None);
            }
        }
        if x == d && a < m {
            assert(taken_before(es, hh, wh, a + 1).contains(d));
            lemma_taken_grows(es, hh, wh, a + 1, m, d);
        }
    }
}

proof fn lemma_moved_prefix(
    es: Seq<StatusRecord>,
    hh: Seq<Option<Seq<char>>>,
    wh: Seq<Option<Seq<char>>>,
    d: int,
    a: int,
    k: int,
)
    requires
        0 <= d < es.len(),
        0 <= a < es.len(),
        a != d,
        forall|x: int| #[trigger] taken(es, hh, wh).contains(x) <==> x == d,
        partner(es, hh, wh, a) == Some(d),
        forall|i: int| 0 <= i < es.len() && i != a ==> #[trigger] partner(es, hh, wh, i) is None,
        0 <= k <= es.len(),
    ensures
        reconciled_upto(es, hh, wh, k).len() == if k > d {
            k - 1
        } else {
            k
        },
        forall|j: int|
            0 <= j < reconciled_upto(es, hh, wh, k).len() ==> reconciled_upto(es, hh, wh, k)[j]
                == #[trigger] moved_shape(es, d, a)[j],
    decreases k,
{
    if k > 0 {
        lemma_moved_prefix(es, hh, wh, d, a, k - 1);
        let r = reconciled_upto(es, hh, wh, k - 1);
        let out = reconciled_upto(es, hh, wh, k);
        if k - 1 != d {
            let j = r.len() as int;
            assert(out == r.push(rewritten(es, hh, wh, k - 1)));
            assert forall|i: int| 0 <= i < out.len() implies out[i] == #[trigger] moved_shape(es, d, a)[i] by {
                if i < j {
                    assert(out[i] == r[i]);
                } else {
                    if k - 1 != a {
                        assert(partner(es, hh, wh, k - 1) is None);
                    }
                }
            }
        }
    }
}

/// A file that was deleted and re-added elsewhere with byte-identical
/// content, among entries that hold no other deletion or addition, leaves
/// the entries one shorter: the deletion is gone, the addition is a rename
/// from the deleted path, and every other entry is unchanged and in place.
pub proof fn lemma_moved_file_shape(
    es: Seq<StatusRecord>,
    hh: Seq<Option<Seq<char>>>,
    wh: Seq<Option<Seq<char>>>,
    d: int,
    a: int,
    h: Seq<char>,
)
    requires
        0 <= d < es.len(),
        0 <= a < es.len(),
        a != d,
        deleted_with(es, hh, d, h),
        forall|k: int| 0 <= k < es.len() && k != d ==> !is_deletion(#[trigger] es[k].status),
        is_addition(es[a].status),
        hash_at(wh, a) == Some(h),
        forall|k: int| 0 <= k < es.len() && k != a ==> !is_addition(#[trigger] es[k].status),
    ensures
        reconciled(es, hh, wh) == moved_shape(es, d, a),
{
    let n = es.len() as int;
    lemma_moved_taken(es, hh, wh, d, a, h, n);
    lemma_moved_prefix(es, hh, wh, d, a, n);
    assert(reconciled(es, hh, wh) =~= moved_shape(es, d, a));
}

} // verus!
