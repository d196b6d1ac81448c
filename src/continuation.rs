//! Continuing an operation after its conflicts are resolved: which one is
//! continued, the commit message offered, the message written back, and the
//! one retry that older tools need.

use vstd::prelude::*;
use crate::conflicts::{name_status_of_output, name_status_views, parse_name_status_z, NameStatusEntry};
use crate::status::string_views;
use crate::text::{
    decimal, decimal_chars, chars_of, concat, contains, contains_chars, crlf_to_lf, crlf_to_lf_chars, decode_lossy,
    is_blank, is_blank_chars, lines, lines_of, lower_of, lowercase, string_from, string_of,
    trim_end, utf8_lossy, views,
};

verus! {

/// The operation that a continue finishes.
#[derive(PartialEq, Eq, Structural, Clone, Copy, Debug)]
pub enum ContinueOperation {
    Merge,
    CherryPick,
    MailboxApply,
    Rebase,
}

/// The operation to continue: merge, then cherry-pick, then mailbox apply,
/// then rebase; none when nothing is under way.
pub open spec fn continue_operation_of(merge: bool, rebase: bool, cherry_pick: bool, mailbox: bool) -> Option<
    ContinueOperation,
> {
    if merge {
        Some(ContinueOperation::Merge)
    } else if cherry_pick {
        Some(ContinueOperation::CherryPick)
    } else if mailbox {
        Some(ContinueOperation::MailboxApply)
    } else if rebase {
        Some(ContinueOperation::Rebase)
    } else {
        None
    }
}

pub fn continue_operation(merge: bool, rebase: bool, cherry_pick: bool, mailbox: bool) -> (r: Result<
    ContinueOperation,
    String,
>)
    ensures
        match continue_operation_of(merge, rebase, cherry_pick, mailbox) {
            Some(op) => r == Ok::<ContinueOperation, String>(op),
            None => r matches Err(e) && e@ == "No merge/rebase/cherry-pick/am in progress."@,
        },
{
    if merge {
        Ok(ContinueOperation::Merge)
    } else if cherry_pick {
        Ok(ContinueOperation::CherryPick)
    } else if mailbox {
        Ok(ContinueOperation::MailboxApply)
    } else if rebase {
        Ok(ContinueOperation::Rebase)
    } else {
        Err(string_from("No merge/rebase/cherry-pick/am in progress."))
    }
}

pub open spec fn continue_operation_name(op: ContinueOperation) -> Seq<char> {
    match op {
        ContinueOperation::Merge => "merge"@,
        ContinueOperation::CherryPick => "cherry-pick"@,
        ContinueOperation::MailboxApply => "am"@,
        ContinueOperation::Rebase => "rebase"@,
    }
}

impl ContinueOperation {
    pub fn name(&self) -> (r: String)
        ensures
            r@ == continue_operation_name(*self),
    {
        match self {
            ContinueOperation::Merge => string_from("merge"),
            ContinueOperation::CherryPick => string_from("cherry-pick"),
            ContinueOperation::MailboxApply => string_from("am"),
            ContinueOperation::Rebase => string_from("rebase"),
        }
    }
}

/// The stored message of the operation: `MERGE_MSG`, `CHERRY_PICK_MSG`,
/// `rebase-apply/msg`, or for a rebase `rebase-merge/message` and then
/// `rebase-apply/message`; a default where they are blank.
pub open spec fn stored_message_of(op: ContinueOperation, primary: Seq<char>, secondary: Seq<char>) -> Seq<
    char,
> {
    match op {
        ContinueOperation::Merge => if is_blank(primary) {
            "Merge"@
        } else {
            primary
        },
        ContinueOperation::CherryPick => if is_blank(primary) {
            "Cherry-pick"@
        } else {
            primary
        },
        ContinueOperation::MailboxApply => if is_blank(primary) {
            "Apply patch"@
        } else {
            primary
        },
        ContinueOperation::Rebase => if !is_blank(primary) {
            primary
        } else if !is_blank(secondary) {
            secondary
        } else {
            "Rebase"@
        },
    }
}

pub fn stored_message(op: ContinueOperation, primary: &str, secondary: &str) -> (r: String)
    ensures
        r@ == stored_message_of(op, primary@, secondary@),
{
    let p_blank = is_blank_chars(&chars_of(primary));
    match op {
        ContinueOperation::Merge => if p_blank {
            string_from("Merge")
        } else {
            string_from(primary)
        },
        ContinueOperation::CherryPick => if p_blank {
            string_from("Cherry-pick")
        } else {
            string_from(primary)
        },
        ContinueOperation::MailboxApply => if p_blank {
            string_from("Apply patch")
        } else {
            string_from(primary)
        },
        ContinueOperation::Rebase => if !p_blank {
            string_from(primary)
        } else if !is_blank_chars(&chars_of(secondary)) {
            string_from(secondary)
        } else {
            string_from("Rebase")
        },
    }
}

/// `s` ended by a newline.
pub open spec fn with_newline(s: Seq<char>) -> Seq<char> {
    if s.len() > 0 && s.last() == '\n' {
        s
    } else {
        s.push('\n')
    }
}

/// A commit message as it is written for git: line ends normalised and a
/// final newline.
pub open spec fn normalized_message(m: Seq<char>) -> Seq<char> {
    with_newline(crlf_to_lf(m))
}

fn with_newline_chars(v: Vec<char>) -> (r: Vec<char>)
    ensures
        r@ == with_newline(v@),
{
    let mut v = v;
    if !(v.len() > 0 && v[v.len() - 1] == '\n') {
        v.push('\n');
    }
    v
}

/// Normalises a commit message for git.
pub fn normalize_commit_message(m: &str) -> (r: String)
    ensures
        r@ == normalized_message(m@),
{
    string_of(&with_newline_chars(crlf_to_lf_chars(&chars_of(m))))
}

/// `s` without the carriage returns and newlines at its end.
pub open spec fn strip_line_ends(s: Seq<char>) -> Seq<char>
    decreases s.len(),
{
    if s.len() > 0 && (s.last() == '\r' || s.last() == '\n') {
        strip_line_ends(s.drop_last())
    } else {
        s
    }
}

/// The message of a mailbox-apply continue, without trailing line ends.
pub fn strip_trailing_line_ends(m: &str) -> (r: String)
    ensures
        r@ == strip_line_ends(m@),
{
    let v = chars_of(m);
    let mut j: usize = v.len();
    proof {
        assert(v@.subrange(0, v.len() as int) == v@);
    }
    while j > 0 && (v[j - 1] == '\r' || v[j - 1] == '\n')
        invariant
            j <= v.len(),
            strip_line_ends(v@) == strip_line_ends(v@.subrange(0, j as int)),
        decreases j,
    {
        proof {
            assert(v@.subrange(0, j as int).drop_last() == v@.subrange(0, j - 1));
        }
        j -= 1;
    }
    string_of(&crate::text::slice_of(&v, 0, j))
}

/// Each line with `pre` before it and a newline after it.
pub open spec fn prefixed_lines(ls: Seq<Seq<char>>, pre: Seq<char>) -> Seq<char>
    decreases ls.len(),
{
    if ls.len() == 0 {
        seq![]
    } else {
        prefixed_lines(ls.drop_last(), pre) + pre + ls.last() + seq!['\n']
    }
}

/// One `# <status> <path>` line per staged change.
pub open spec fn staged_lines(fs: Seq<(Seq<char>, Seq<char>, Option<Seq<char>>)>) -> Seq<char>
    decreases fs.len(),
{
    if fs.len() == 0 {
        seq![]
    } else {
        staged_lines(fs.drop_last()) + "# "@ + fs.last().0 + seq![' '] + fs.last().1 + seq!['\n']
    }
}

pub open spec fn help_text() -> Seq<char> {
    "# Please enter the commit message for your changes. Lines starting\n# with '#' will be ignored, and an empty message aborts the commit.\n#\n"@
}

/// The message offered for a continue: the stored message, the usual help
/// comment, the conflicts (for a merge, cherry-pick or mailbox apply), the
/// status text as comments, and the staged changes.
pub open spec fn continue_message_of(
    op: ContinueOperation,
    message: Seq<char>,
    conflicts: Seq<Seq<char>>,
    status_text: Option<Seq<char>>,
    files: Seq<(Seq<char>, Seq<char>, Option<Seq<char>>)>,
) -> Seq<char> {
    let head = with_newline(crlf_to_lf(message)) + seq!['\n'] + help_text();
    let conflict_part = if op != ContinueOperation::Rebase && conflicts.len() > 0 {
        "# Conflicts:\n"@ + prefixed_lines(conflicts, "#\t"@) + "#\n"@
    } else {
        seq![]
    };
    let status_part = match status_text {
        Some(t) => prefixed_lines(lines(crlf_to_lf(t)), "# "@),
        None => seq![],
    };
    let files_part = if files.len() > 0 {
        "#\n# Staged changes:\n"@ + staged_lines(files)
    } else {
        seq![]
    };
    head + conflict_part + status_part + files_part
}

fn prefixed_lines_of(ls: &Vec<Vec<char>>, pre: &str) -> (r: Vec<char>)
    ensures
        r@ == prefixed_lines(views(ls@), pre@),
{
    let p = chars_of(pre);
    let ghost lv = views(ls@);
    let mut out: Vec<char> = Vec::new();
    let mut i: usize = 0;
    while i < ls.len()
        invariant
            i <= ls.len(),
            lv == views(ls@),
            p@ == pre@,
            out@ == prefixed_lines(lv.take(i as int), pre@),
        decreases ls.len() - i,
    {
        proof {
            assert(lv.take(i + 1).drop_last() == lv.take(i as int));
            assert(lv.take(i + 1).last() == ls@[i as int]@);
        }
        out = concat(&concat(&out, &p), &ls[i]);
        out.push('\n');
        i += 1;
    }
    proof {
        assert(lv.take(ls.len() as int) == lv);
    }
    out
}

fn char_vecs(v: &Vec<String>) -> (r: Vec<Vec<char>>)
    ensures
        views(r@) == string_views(v@),
{
    let mut out: Vec<Vec<char>> = Vec::new();
    let mut i: usize = 0;
    while i < v.len()
        invariant
            i <= v.len(),
            views(out@) == string_views(v@).take(i as int),
        decreases v.len() - i,
    {
        let ghost before = out@;
        let c = chars_of(v[i].as_str());
        out.push(c);
        proof {
            assert(views(out@) =~= views(before).push(v@[i as int]@));
            assert(string_views(v@).take(i + 1) =~= string_views(v@).take(i as int).push(
                v@[i as int]@,
            ));
        }
        i += 1;
    }
    proof {
        assert(string_views(v@).take(v.len() as int) == string_views(v@));
    }
    out
}

fn staged_lines_of(fs: &Vec<NameStatusEntry>) -> (r: Vec<char>)
    ensures
        r@ == staged_lines(name_status_views(fs@)),
{
    let ghost fv = name_status_views(fs@);
    let mut out: Vec<char> = Vec::new();
    let mut i: usize = 0;
    while i < fs.len()
        invariant
            i <= fs.len(),
            fv == name_status_views(fs@),
            out@ == staged_lines(fv.take(i as int)),
        decreases fs.len() - i,
    {
        proof {
            assert(fv.take(i + 1).drop_last() == fv.take(i as int));
            assert(fv.take(i + 1).last() == crate::conflicts::name_status_view(fs@[i as int]));
        }
        let a = concat(&out, &chars_of("# "));
        let b = concat(&a, &chars_of(fs[i].status.as_str()));
        let mut c = b;
        c.push(' ');
        let d = concat(&c, &chars_of(fs[i].path.as_str()));
        out = d;
        out.push('\n');
        i += 1;
    }
    proof {
        assert(fv.take(fs.len() as int) == fv);
    }
    out
}

/// Builds the message offered for a continue (see [`continue_message_of`]).
pub fn continue_message(
    op: ContinueOperation,
    message: &str,
    conflicts: &Vec<String>,
    status_text: Option<&str>,
    files: &Vec<NameStatusEntry>,
) -> (r: String)
    ensures
        r@ == continue_message_of(
            op,
            message@,
            string_views(conflicts@),
            match status_text {
                Some(t) => Some(t@),
                None => None,
            },
            name_status_views(files@),
        ),
{
    let mut s = with_newline_chars(crlf_to_lf_chars(&chars_of(message)));
    s.push('\n');
    s = concat(
        &s,
        &chars_of(
            "# Please enter the commit message for your changes. Lines starting\n# with '#' will be ignored, and an empty message aborts the commit.\n#\n",
        ),
    );
    let head = s;
    let conflict_part: Vec<char> = if op != ContinueOperation::Rebase && conflicts.len() > 0 {
        let a = concat(&chars_of("# Conflicts:\n"), &prefixed_lines_of(&char_vecs(conflicts), "#\t"));
        concat(&a, &chars_of("#\n"))
    } else {
        Vec::new()
    };
    let status_part: Vec<char> = match status_text {
        Some(t) => prefixed_lines_of(&lines_of(&crlf_to_lf_chars(&chars_of(t))), "# "),
        None => Vec::new(),
    };
    let files_part: Vec<char> = if files.len() > 0 {
        concat(&chars_of("#\n# Staged changes:\n"), &staged_lines_of(files))
    } else {
        Vec::new()
    };
    let all = concat(&concat(&concat(&head, &conflict_part), &status_part), &files_part);
    string_of(&all)
}

/// The text a command leaves for the user: trailing whitespace is dropped,
/// and the other stream stands in where the first is empty.  A success
/// reports standard output first, a failure standard error first.
pub open spec fn reported_output(success: bool, stdout: Seq<char>, stderr: Seq<char>) -> Result<
    Seq<char>,
    Seq<char>,
> {
    let out = trim_end(stdout);
    let err = trim_end(stderr);
    if success {
        Ok(
            if out.len() > 0 {
                out
            } else {
                err
            },
        )
    } else {
        Err(
            if err.len() > 0 {
                err
            } else {
                out
            },
        )
    }
}

fn trim_end_of(v: &Vec<char>) -> (r: Vec<char>)
    ensures
        r@ == trim_end(v@),
{
    let mut j: usize = v.len();
    while j > 0 && crate::text::is_ws_char(v[j - 1])
        invariant
            j <= v.len(),
            forall|k: int| j <= k < v.len() ==> crate::text::is_ws(#[trigger] v@[k]),
        decreases j,
    {
        j -= 1;
    }
    proof {
        crate::text::lemma_trim_end_prefix(v@, j as int);
    }
    crate::text::slice_of(v, 0, j)
}

/// The result that a command's exit status and output report.
pub fn command_result(success: bool, stdout: &[u8], stderr: &[u8]) -> (r: Result<String, String>)
    ensures
        match r {
            Ok(t) => reported_output(success, utf8_lossy(stdout@), utf8_lossy(stderr@)) == Ok::<
                Seq<char>,
                Seq<char>,
            >(t@),
            Err(e) => reported_output(success, utf8_lossy(stdout@), utf8_lossy(stderr@)) == Err::<
                Seq<char>,
                Seq<char>,
            >(e@),
        },
{
    let out = trim_end_of(&chars_of(decode_lossy(stdout).as_str()));
    let err = trim_end_of(&chars_of(decode_lossy(stderr).as_str()));
    if success {
        Ok(
            string_of(
                &if out.len() > 0 {
                    out
                } else {
                    err
                },
            ),
        )
    } else {
        Err(
            string_of(
                &if err.len() > 0 {
                    err
                } else {
                    out
                },
            ),
        )
    }
}

/// A failed `rebase --continue --no-edit` whose diagnostic shows that the
/// tool does not know the flag: it is run once more without it.
pub open spec fn retry_without_no_edit(diagnostic: Seq<char>) -> bool {
    retry_lowered(lower_of(diagnostic))
}

/// The lowercased diagnostic names an unknown option or the flag itself.
pub open spec fn retry_lowered(l: Seq<char>) -> bool {
    contains(l, "unknown option"@) || contains(l, "no-edit"@)
}

/// Whether a lowercased diagnostic calls for the retry without `--no-edit`.
pub fn retry_on_lowered(l: &str) -> (r: bool)
    ensures
        r == retry_lowered(l@),
{
    let v = chars_of(l);
    contains_chars(&v, &chars_of("unknown option")) || contains_chars(&v, &chars_of("no-edit"))
}

/// The two attempts of a `rebase --continue`: the first with `--no-edit`,
/// the second without, made only where the first one's diagnostic
/// satisfies [`retry_without_no_edit`].
pub struct ContinueAttempts {
    pub primary: Vec<String>,
    pub fallback: Vec<String>,
}

pub fn rebase_continue_attempts() -> (r: ContinueAttempts)
    ensures
        string_views(r.primary@) == seq!["rebase"@, "--continue"@, "--no-edit"@],
        string_views(r.fallback@) == seq!["rebase"@, "--continue"@],
{
    let primary = vec![string_from("rebase"), string_from("--continue"), string_from("--no-edit")];
    let fallback = vec![string_from("rebase"), string_from("--continue")];
    proof {
        assert(string_views(primary@) =~= seq!["rebase"@, "--continue"@, "--no-edit"@]);
        assert(string_views(fallback@) =~= seq!["rebase"@, "--continue"@]);
    }
    ContinueAttempts { primary, fallback }
}

/// Whether a failed first attempt is retried without `--no-edit`.
pub fn should_retry_continue(diagnostic: &str) -> (r: bool)
    ensures
        r == retry_without_no_edit(diagnostic@),
{
    retry_on_lowered(lowercase(diagnostic).as_str())
}

/// The staged changes that `git diff --cached --name-status -z -M` lists;
/// `ok` says it exited 0 or 1.
pub fn staged_name_status(ok: bool, stdout: &[u8], stderr: &[u8]) -> (r: Result<
    Vec<NameStatusEntry>,
    String,
>)
    ensures
        ok ==> (r matches Ok(v) && name_status_views(v@) == name_status_of_output(stdout@)),
        !ok ==> (r matches Err(e) && e@ == "git diff --cached failed: "@ + utf8_lossy(stderr@)),
{
    if ok {
        Ok(parse_name_status_z(stdout))
    } else {
        let msg = concat(&chars_of("git diff --cached failed: "), &chars_of(decode_lossy(stderr).as_str()));
        Err(string_of(&msg))
    }
}

/// The text of `git status --untracked-files=no`, or its diagnostic.
pub fn git_status_text(success: bool, stdout: &[u8], stderr: &[u8]) -> (r: Result<String, String>)
    ensures
        success ==> (r matches Ok(t) && t@ == utf8_lossy(stdout@)),
        !success ==> (r matches Err(e) && e@ == utf8_lossy(stderr@)),
{
    if success {
        Ok(decode_lossy(stdout))
    } else {
        Err(decode_lossy(stderr))
    }
}

/// The `--unified=<n>` argument of a diff shown before a continue: the
/// context asked for, at most 50 lines.
pub fn unified_arg(unified: u32) -> (r: String)
    ensures
        r@ == "--unified="@ + decimal((if unified < 50 {
            unified
        } else {
            50
        }) as nat),
{
    let n: u32 = if unified < 50 {
        unified
    } else {
        50
    };
    string_of(&concat(&chars_of("--unified="), &decimal_chars(n as u64)))
}

} // verus!
