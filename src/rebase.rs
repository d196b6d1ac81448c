//! The interactive-rebase orchestrator: it turns the client's plan into the
//! native instruction list, keeps the pending message and author rewrites
//! (the reword map) and decides each step of the automatic continuation.

use vstd::prelude::*;
use crate::status::string_views;
use crate::text::{
    lines, lines_of, slice_of, split_chars, split_on, splitn, splitn_chars, views, contains,
    contains_chars,
    chars_of, concat, eq_str, is_blank, is_blank_chars, lower_of, lowercase, opt_view,
    parse_u32, parse_u32_chars, starts_with, string_from, string_of, trim, trim_chars, has_prefix,
};

verus! {

/// One entry of the client's rebase plan.
pub struct InteractiveRebaseTodoEntry {
    pub action: String,
    pub hash: String,
    pub short_hash: Option<String>,
    pub original_message: Option<String>,
    pub new_message: Option<String>,
    pub new_author: Option<String>,
}

/// The value of an [`InteractiveRebaseTodoEntry`].
pub struct TodoView {
    pub action: Seq<char>,
    pub hash: Seq<char>,
    pub original_message: Option<Seq<char>>,
    pub new_message: Option<Seq<char>>,
    pub new_author: Option<Seq<char>>,
}

impl View for InteractiveRebaseTodoEntry {
    type V = TodoView;

    open spec fn view(&self) -> TodoView {
        TodoView {
            action: self.action@,
            hash: self.hash@,
            original_message: opt_view(self.original_message),
            new_message: opt_view(self.new_message),
            new_author: opt_view(self.new_author),
        }
    }
}

pub open spec fn todo_views(v: Seq<InteractiveRebaseTodoEntry>) -> Seq<TodoView> {
    v.map_values(|e: InteractiveRebaseTodoEntry| e@)
}

/// What the client asked for one commit.
#[derive(PartialEq, Eq, Structural, Clone, Copy, Debug)]
pub enum TodoAction {
    Pick,
    Reword,
    Edit,
    Squash,
    Fixup,
    Drop,
}

/// The action that a lowercased, trimmed action word names; any other
/// word is a pick.
pub open spec fn action_word(l: Seq<char>) -> TodoAction {
    if l == "drop"@ {
        TodoAction::Drop
    } else if l == "reword"@ {
        TodoAction::Reword
    } else if l == "edit"@ {
        TodoAction::Edit
    } else if l == "squash"@ {
        TodoAction::Squash
    } else if l == "fixup"@ {
        TodoAction::Fixup
    } else {
        TodoAction::Pick
    }
}

/// The action that an action word names, compared without case and
/// surrounding whitespace.
pub open spec fn action_of(a: Seq<char>) -> TodoAction {
    action_word(lower_of(trim(a)))
}

/// Reads an action word that is already lowercased and trimmed.
pub fn todo_action_of_lowered(l: &str) -> (r: TodoAction)
    ensures
        r == action_word(l@),
{
    let v = chars_of(l);
    if eq_str(&v, "drop") {
        TodoAction::Drop
    } else if eq_str(&v, "reword") {
        TodoAction::Reword
    } else if eq_str(&v, "edit") {
        TodoAction::Edit
    } else if eq_str(&v, "squash") {
        TodoAction::Squash
    } else if eq_str(&v, "fixup") {
        TodoAction::Fixup
    } else {
        TodoAction::Pick
    }
}

pub fn parse_todo_action(a: &str) -> (r: TodoAction)
    ensures
        r == action_of(a@),
{
    let t = string_of(&trim_chars(&chars_of(a)));
    let l = lowercase(t.as_str());
    todo_action_of_lowered(l.as_str())
}

/// A native instruction line `<verb> <hash> <subject>`.
pub open spec fn todo_line(verb: Seq<char>, hash: Seq<char>, subject: Seq<char>) -> Seq<char> {
    verb + seq![' '] + hash + seq![' '] + subject
}

pub open spec fn subject_of(e: TodoView) -> Seq<char> {
    match e.original_message {
        Some(m) => m,
        None => seq![],
    }
}

/// The instruction line for one plan entry: none for a drop or a blank
/// hash; `edit` for a reword, an edit, and a pick that changes the author;
/// `fixup` for a squash or a fixup; `pick` otherwise.
pub open spec fn entry_line(e: TodoView) -> Option<Seq<char>> {
    let h = trim(e.hash);
    let s = subject_of(e);
    if h.len() == 0 {
        None
    } else {
        match action_of(e.action) {
            TodoAction::Drop => None,
            TodoAction::Reword => Some(todo_line("edit"@, h, s)),
            TodoAction::Edit => Some(todo_line("edit"@, h, s)),
            TodoAction::Squash => Some(todo_line("fixup"@, h, s)),
            TodoAction::Fixup => Some(todo_line("fixup"@, h, s)),
            TodoAction::Pick => if e.new_author is Some {
                Some(todo_line("edit"@, h, s))
            } else {
                Some(todo_line("pick"@, h, s))
            },
        }
    }
}

/// The value of a reword-map entry: hash, new message, new author.
pub type RewordView = (Seq<char>, Option<Seq<char>>, Option<Seq<char>>);

/// The rewrite that one plan entry records: a reword records its message
/// and author; an edit records them when either is given; a pick records a
/// new author alone.
pub open spec fn entry_reword(e: TodoView) -> Option<RewordView> {
    let h = trim(e.hash);
    if h.len() == 0 {
        None
    } else {
        match action_of(e.action) {
            TodoAction::Reword => Some((h, e.new_message, e.new_author)),
            TodoAction::Edit => if e.new_author is Some || e.new_message is Some {
                Some((h, e.new_message, e.new_author))
            } else {
                None
            },
            TodoAction::Pick => if e.new_author is Some {
                Some((h, None, e.new_author))
            } else {
                None
            },
            _ => None,
        }
    }
}

/// The instruction lines of a plan, in order.
pub open spec fn plan_lines(es: Seq<TodoView>) -> Seq<Seq<char>>
    decreases es.len(),
{
    if es.len() == 0 {
        seq![]
    } else {
        let r = plan_lines(es.drop_last());
        match entry_line(es.last()) {
            Some(l) => r.push(l),
            None => r,
        }
    }
}

/// The rewrites that a plan records, in order.
pub open spec fn plan_rewords(es: Seq<TodoView>) -> Seq<RewordView>
    decreases es.len(),
{
    if es.len() == 0 {
        seq![]
    } else {
        let r = plan_rewords(es.drop_last());
        match entry_reword(es.last()) {
            Some(w) => r.push(w),
            None => r,
        }
    }
}

/// A pending rewrite of one commit.
pub struct RewordEntry {
    pub hash: String,
    pub message: Option<String>,
    pub author: Option<String>,
}

pub open spec fn reword_entry_view(e: RewordEntry) -> RewordView {
    (e.hash@, opt_view(e.message), opt_view(e.author))
}

/// The pending rewrites of a rebase, in the order they were recorded; a
/// later entry for a hash replaces an earlier one.
pub struct RewordMap {
    pub entries: Vec<RewordEntry>,
}

impl View for RewordMap {
    type V = Seq<RewordView>;

    open spec fn view(&self) -> Seq<RewordView> {
        self.entries@.map_values(|e: RewordEntry| reword_entry_view(e))
    }
}

/// One of `a` and `b` is a prefix of the other: a hash and an abbreviation
/// of it, either way round.
pub open spec fn prefix_related(a: Seq<char>, b: Seq<char>) -> bool {
    starts_with(a, b) || starts_with(b, a)
}

/// The rewrite recorded for the commit `sha` names: the latest entry whose
/// hash is prefix-related to `sha`.
pub open spec fn reword_for(m: Seq<RewordView>, sha: Seq<char>) -> Option<
    (Option<Seq<char>>, Option<Seq<char>>),
>
    decreases m.len(),
{
    if m.len() == 0 {
        None
    } else if prefix_related(m.last().0, sha) {
        Some((m.last().1, m.last().2))
    } else {
        reword_for(m.drop_last(), sha)
    }
}

fn opt_clone(o: &Option<String>) -> (r: Option<String>)
    ensures
        opt_view(r) == opt_view(*o),
{
    match o {
        Some(s) => Some(s.clone()),
        None => None,
    }
}

impl RewordMap {
    pub fn new() -> (r: RewordMap)
        ensures
            r@ == Seq::<RewordView>::empty(),
    {
        let r = RewordMap { entries: Vec::new() };
        proof {
            assert(r@ =~= Seq::<RewordView>::empty());
        }
        r
    }

    /// Records a rewrite for `hash`.
    pub fn insert(&mut self, hash: String, message: Option<String>, author: Option<String>)
        ensures
            final(self)@ == old(self)@.push((hash@, opt_view(message), opt_view(author))),
    {
        let ghost before = self.entries@;
        let ghost v = (hash@, opt_view(message), opt_view(author));
        self.entries.push(RewordEntry { hash, message, author });
        proof {
            assert(self.entries@.map_values(|e: RewordEntry| reword_entry_view(e))
                =~= before.map_values(|e: RewordEntry| reword_entry_view(e)).push(v));
        }
    }

    /// The rewrite recorded for the commit that `sha` names, if any.
    pub fn lookup(&self, sha: &str) -> (r: Option<(Option<String>, Option<String>)>)
        ensures
            match r {
                Some(p) => reword_for(self@, sha@) == Some((opt_view(p.0), opt_view(p.1))),
                None => reword_for(self@, sha@) is None,
            },
    {
        let s = chars_of(sha);
        let mut i: usize = self.entries.len();
        proof {
            assert(self@.take(self.entries.len() as int) == self@);
        }
        while i > 0
            invariant
                i <= self.entries.len(),
                s@ == sha@,
                reword_for(self@, sha@) == reword_for(self@.take(i as int), sha@),
            decreases i,
        {
            let ghost t = self@.take(i as int);
            let e = &self.entries[i - 1];
            proof {
                assert(t.last() == reword_entry_view(*e));
                assert(t.drop_last() == self@.take(i - 1));
            }
            let k = chars_of(e.hash.as_str());
            if has_prefix(&k, &s) || has_prefix(&s, &k) {
                return Some((opt_clone(&e.message), opt_clone(&e.author)));
            }
            i -= 1;
        }
        None
    }
}

/// Reading back a rewrite just recorded for a hash, by that hash or by any
/// abbreviation of it (or any longer form), yields the recorded message
/// and author.
pub proof fn lemma_reword_read_back(
    m: Seq<RewordView>,
    hash: Seq<char>,
    message: Option<Seq<char>>,
    author: Option<Seq<char>>,
    sha: Seq<char>,
)
    requires
        prefix_related(hash, sha),
    ensures
        reword_for(m.push((hash, message, author)), sha) == Some((message, author)),
{
    assert(m.push((hash, message, author)).last() == (hash, message, author));
}

/// The native instruction list and the rewrites of a plan.
pub struct RebasePlan {
    pub lines: Vec<String>,
    pub rewords: RewordMap,
}

fn todo_line_of(verb: &str, hash: &Vec<char>, subject: &Vec<char>) -> (r: String)
    ensures
        r@ == todo_line(verb@, hash@, subject@),
{
    let v = chars_of(verb);
    let a = concat(&v, &vec![' ']);
    let b = concat(&a, hash);
    let c = concat(&b, &vec![' ']);
    let d = concat(&c, subject);
    proof {
        assert(d@ =~= todo_line(verb@, hash@, subject@));
    }
    string_of(&d)
}

/// Turns the client's plan into native instruction lines and the
/// rewrites that the automatic continuation applies.
pub fn build_rebase_plan(entries: &Vec<InteractiveRebaseTodoEntry>) -> (r: RebasePlan)
    ensures
        r.lines@.map_values(|l: String| l@) == plan_lines(todo_views(entries@)),
        r.rewords@ == plan_rewords(todo_views(entries@)),
{
    let ghost es = todo_views(entries@);
    let mut lines: Vec<String> = Vec::new();
    let mut rewords = RewordMap::new();
    let mut i: usize = 0;
    while i < entries.len()
        invariant
            i <= entries.len(),
            es == todo_views(entries@),
            lines@.map_values(|l: String| l@) == plan_lines(es.take(i as int)),
            rewords@ == plan_rewords(es.take(i as int)),
        decreases entries.len() - i,
    {
        let e = &entries[i];
        let ghost ev = e@;
        proof {
            assert(es.take(i + 1).drop_last() == es.take(i as int));
            assert(es.take(i + 1).last() == ev);
        }
        let ghost before = lines@;
        let h = trim_chars(&chars_of(e.hash.as_str()));
        if h.len() > 0 {
            let subject: Vec<char> = match &e.original_message {
                Some(m) => chars_of(m.as_str()),
                None => Vec::new(),
            };
            proof {
                assert(subject@ == subject_of(ev));
            }
            let action = parse_todo_action(e.action.as_str());
            let line: Option<String> = match action {
                TodoAction::Drop => None,
                TodoAction::Reword => Some(todo_line_of("edit", &h, &subject)),
                TodoAction::Edit => Some(todo_line_of("edit", &h, &subject)),
                TodoAction::Squash => Some(todo_line_of("fixup", &h, &subject)),
                TodoAction::Fixup => Some(todo_line_of("fixup", &h, &subject)),
                TodoAction::Pick => if e.new_author.is_some() {
                    Some(todo_line_of("edit", &h, &subject))
                } else {
                    Some(todo_line_of("pick", &h, &subject))
                },
            };
            match line {
                Some(l) => {
                    let ghost lv = l@;
                    lines.push(l);
                    proof {
                        assert(lines@.map_values(|l: String| l@) =~= before.map_values(
                            |l: String| l@,
                        ).push(lv));
                    }
                },
                None => {},
            }
            match action {
                TodoAction::Reword => {
                    rewords.insert(string_of(&h), opt_clone(&e.new_message), opt_clone(&e.new_author));
                },
                TodoAction::Edit => {
                    if e.new_author.is_some() || e.new_message.is_some() {
                        rewords.insert(
                            string_of(&h),
                            opt_clone(&e.new_message),
                            opt_clone(&e.new_author),
                        );
                    }
                },
                TodoAction::Pick => {
                    if e.new_author.is_some() {
                        rewords.insert(string_of(&h), None, opt_clone(&e.new_author));
                    }
                },
                _ => {},
            }
        }
        i += 1;
    }
    proof {
        assert(es.take(entries.len() as int) == es);
    }
    RebasePlan { lines, rewords }
}

/// The JSON text that `serde_json::to_string` makes of the rewrites, an
/// array of `[hash, message, author]` rows in order.
pub uninterp spec fn reword_json_of(m: Seq<RewordView>) -> Seq<char>;

/// What `serde_json::from_str` reads from `text` as an array of
/// `[hash, message, author]` rows, if it is one.
pub uninterp spec fn reword_rows_of(text: Seq<char>) -> Option<Seq<RewordView>>;

/// Relies on `serde_json::to_string`: the JSON text depends on the rows
/// alone.
#[verifier::external_body]
fn encode_rewords(m: &RewordMap) -> (r: String)
    ensures
        r@ == reword_json_of(m@),
{
    let rows: Vec<(&str, Option<&str>, Option<&str>)> = m.entries.iter().map(
        |e| (e.hash.as_str(), e.message.as_deref(), e.author.as_deref()),
    ).collect();
    serde_json::to_string(&rows).unwrap_or_default()
}

/// Relies on `serde_json::from_str`: the rows read depend on the text
/// alone, and text that is no such array gives none.
#[verifier::external_body]
fn decode_rewords(text: &str) -> (r: Option<RewordMap>)
    ensures
        match r {
            Some(m) => reword_rows_of(text@) == Some(m@),
            None => reword_rows_of(text@) is None,
        },
{
    let rows: Vec<(String, Option<String>, Option<String>)> = serde_json::from_str(text).ok()?;
    Some(
        RewordMap {
            entries: rows.into_iter().map(
                |(hash, message, author)| RewordEntry { hash, message, author },
            ).collect(),
        },
    )
}

/// The text of the reword-map side file.
pub fn save_reword_map(m: &RewordMap) -> (r: String)
    ensures
        r@ == reword_json_of(m@),
{
    encode_rewords(m)
}

/// The reword map that the side file's text (`None` where it could not be
/// read) holds; unreadable or malformed text gives an empty map.
pub fn load_reword_map(text: Option<&str>) -> (r: RewordMap)
    ensures
        r@ == match text {
            Some(t) => match reword_rows_of(t@) {
                Some(rows) => rows,
                None => Seq::<RewordView>::empty(),
            },
            None => Seq::<RewordView>::empty(),
        },
{
    match text {
        Some(t) => match decode_rewords(t) {
            Some(m) => m,
            None => RewordMap::new(),
        },
        None => RewordMap::new(),
    }
}

pub open spec fn arg_views(v: Seq<String>) -> Seq<Seq<char>> {
    v.map_values(|a: String| a@)
}

/// The arguments of `git commit --amend` that apply a rewrite: a non-blank
/// message replaces the message, else it is kept; a non-blank author
/// replaces the author.
pub open spec fn amend_args_of(message: Option<Seq<char>>, author: Option<Seq<char>>) -> Seq<
    Seq<char>,
> {
    let head = seq!["commit"@, "--amend"@, "--no-verify"@];
    let msg = if message is Some && !is_blank(message->0) {
        seq!["-m"@, message->0]
    } else {
        seq!["--no-edit"@]
    };
    let auth = if author is Some && !is_blank(author->0) {
        seq!["--author"@, author->0]
    } else {
        seq![]
    };
    head + msg + auth
}

fn push_arg(v: &mut Vec<String>, a: String)
    ensures
        arg_views(final(v)@) == arg_views(old(v)@).push(a@),
{
    let ghost before = v@;
    let ghost av = a@;
    v.push(a);
    proof {
        assert(arg_views(v@) =~= arg_views(before).push(av));
    }
}

/// The `git commit --amend` arguments for a rewrite.
pub fn amend_args(message: &Option<String>, author: &Option<String>) -> (r: Vec<String>)
    ensures
        arg_views(r@) == amend_args_of(opt_view(*message), opt_view(*author)),
{
    let mut args: Vec<String> = Vec::new();
    push_arg(&mut args, string_from("commit"));
    push_arg(&mut args, string_from("--amend"));
    push_arg(&mut args, string_from("--no-verify"));
    let msg_given = match message {
        Some(m) => !is_blank_chars(&chars_of(m.as_str())),
        None => false,
    };
    if msg_given {
        push_arg(&mut args, string_from("-m"));
        match message {
            Some(m) => push_arg(&mut args, m.clone()),
            None => {},
        }
    } else {
        push_arg(&mut args, string_from("--no-edit"));
    }
    let author_given = match author {
        Some(a) => !is_blank_chars(&chars_of(a.as_str())),
        None => false,
    };
    if author_given {
        push_arg(&mut args, string_from("--author"));
        match author {
            Some(a) => push_arg(&mut args, a.clone()),
            None => {},
        }
    }
    proof {
        assert(arg_views(args@) =~= amend_args_of(opt_view(*message), opt_view(*author)));
    }
    args
}

/// What the automatic continuation does at a stop.
pub enum RewordStep {
    /// The rebase directory is gone: the rebase is complete.
    Completed,
    /// The stop is a recorded rewrite: amend with these arguments, then
    /// continue.
    Amend(Vec<String>),
    /// A stop that the user asked for, or one that cannot be matched: report
    /// the state.
    Report,
}

/// The step at a stop: `merge_dir_exists` says the rebase directory is
/// present, `stopped_sha` is the content of its `stopped-sha` file (empty
/// where it could not be read).
pub open spec fn reword_step_of(m: Seq<RewordView>, merge_dir_exists: bool, stopped_sha: Seq<char>) -> Option<
    Seq<Seq<char>>,
> {
    let sha = trim(stopped_sha);
    if !merge_dir_exists || sha.len() == 0 {
        None
    } else {
        match reword_for(m, sha) {
            Some(w) => Some(amend_args_of(w.0, w.1)),
            None => None,
        }
    }
}

/// Decides the next move of the automatic continuation.
pub fn reword_step(map: &RewordMap, merge_dir_exists: bool, stopped_sha: &str) -> (r: RewordStep)
    ensures
        !merge_dir_exists <==> r is Completed,
        merge_dir_exists ==> match r {
            RewordStep::Amend(args) => reword_step_of(map@, merge_dir_exists, stopped_sha@) == Some(
                arg_views(args@),
            ),
            _ => reword_step_of(map@, merge_dir_exists, stopped_sha@) is None,
        },
{
    if !merge_dir_exists {
        return RewordStep::Completed;
    }
    let sha = string_of(&trim_chars(&chars_of(stopped_sha)));
    if sha.as_str().unicode_len() == 0 {
        return RewordStep::Report;
    }
    match map.lookup(sha.as_str()) {
        Some(w) => RewordStep::Amend(amend_args(&w.0, &w.1)),
        None => RewordStep::Report,
    }
}

/// What follows a `git rebase --continue`.
#[derive(PartialEq, Eq, Structural, Clone, Copy, Debug)]
pub enum ContinueOutcome {
    /// It succeeded and no rebase is left: the rebase is complete.
    Completed,
    /// It succeeded and the rebase stopped again.
    NextStop,
    /// It failed: read the state again.
    Inspect,
}

pub open spec fn continue_outcome_of(success: bool, merge_dir_exists: bool, rebase_head: bool) -> ContinueOutcome {
    if !success {
        ContinueOutcome::Inspect
    } else if !merge_dir_exists && !rebase_head {
        ContinueOutcome::Completed
    } else {
        ContinueOutcome::NextStop
    }
}

/// Classifies a continuation by its exit status and by the sentinels that
/// remain afterwards: success alone does not prove completion.
pub fn after_continue(success: bool, merge_dir_exists: bool, rebase_head: bool) -> (r: ContinueOutcome)
    ensures
        r == continue_outcome_of(success, merge_dir_exists, rebase_head),
{
    if !success {
        ContinueOutcome::Inspect
    } else if !merge_dir_exists && !rebase_head {
        ContinueOutcome::Completed
    } else {
        ContinueOutcome::NextStop
    }
}

/// After a failed continue the state is read again: the continuation goes
/// on at an edit stop (the next stop may be another recorded rewrite) and
/// reports any other state.
pub fn continue_after_inspect(status: RebaseStatus) -> (r: bool)
    ensures
        r == (status == RebaseStatus::StoppedAtEdit),
{
    status == RebaseStatus::StoppedAtEdit
}

/// Where an interactive rebase stands.
#[derive(PartialEq, Eq, Structural, Clone, Copy, Debug)]
pub enum RebaseStatus {
    Completed,
    StoppedAtEdit,
    Conflicts,
    Error,
}

/// The state of an interactive rebase that the client shows.
pub struct InteractiveRebaseResult {
    pub status: RebaseStatus,
    pub message: String,
    pub current_step: Option<u32>,
    pub total_steps: Option<u32>,
    pub stopped_commit_hash: Option<String>,
    pub stopped_commit_message: Option<String>,
    pub stopped_commit_author_name: Option<String>,
    pub stopped_commit_author_email: Option<String>,
    pub conflict_files: Vec<String>,
}

/// The result of a rebase that finished, with `message`.
pub fn completed_result(message: String) -> (r: InteractiveRebaseResult)
    ensures
        r.status == RebaseStatus::Completed,
        r.message@ == message@,
        r.current_step is None && r.total_steps is None,
        r.stopped_commit_hash is None && r.stopped_commit_message is None,
        r.stopped_commit_author_name is None && r.stopped_commit_author_email is None,
        r.conflict_files@.len() == 0,
{
    InteractiveRebaseResult {
        status: RebaseStatus::Completed,
        message,
        current_step: None,
        total_steps: None,
        stopped_commit_hash: None,
        stopped_commit_message: None,
        stopped_commit_author_name: None,
        stopped_commit_author_email: None,
        conflict_files: Vec::new(),
    }
}

/// What the sentinel files of a rebase show: whether `REBASE_HEAD` resolves
/// and the rebase directory exists, the `msgnum`, `end`, `stopped-sha` and
/// `message` files (where they could be read), the output of
/// `git log -1 --pretty=format:%an%x1f%ae HEAD` (where it succeeded) and the
/// unmerged paths.
pub struct RebaseProbe {
    pub rebase_head: bool,
    pub merge_dir_exists: bool,
    pub msgnum: Option<String>,
    pub end: Option<String>,
    pub stopped_sha: Option<String>,
    pub message: Option<String>,
    pub head_author: Option<String>,
    pub conflict_files: Vec<String>,
}

/// `s` without surrounding whitespace, unless nothing is left.
pub open spec fn trimmed_text(s: Option<Seq<char>>) -> Option<Seq<char>> {
    match s {
        Some(t) => if trim(t).len() > 0 {
            Some(trim(t))
        } else {
            None
        },
        None => None,
    }
}

/// The number that a sentinel file holds.
pub open spec fn step_number(s: Option<Seq<char>>) -> Option<u32> {
    match s {
        Some(t) => parse_u32(trim(t)),
        None => None,
    }
}

fn trimmed_opt(s: &Option<String>) -> (r: Option<String>)
    ensures
        opt_view(r) == trimmed_text(opt_view(*s)),
{
    match s {
        Some(t) => {
            let v = trim_chars(&chars_of(t.as_str()));
            if v.len() > 0 {
                Some(string_of(&v))
            } else {
                None
            }
        },
        None => None,
    }
}

fn step_number_of(s: &Option<String>) -> (r: Option<u32>)
    ensures
        r == step_number(opt_view(*s)),
{
    match s {
        Some(t) => parse_u32_chars(&trim_chars(&chars_of(t.as_str()))),
        None => None,
    }
}

/// The author name and email in `git log -1 --pretty=format:%an%x1f%ae`
/// output: the text around the first unit separator, each absent where
/// empty.
pub open spec fn head_author_of(out: Option<Seq<char>>) -> (Option<Seq<char>>, Option<Seq<char>>) {
    match out {
        None => (None, None),
        Some(o) => {
            let t = trim(o);
            let some_if = |x: Seq<char>| if x.len() > 0 {
                Some(x)
            } else {
                None
            };
            if exists|i: int| 0 <= i < t.len() && t[i] == '\u{1f}' {
                let i = choose|i: int|
                    0 <= i < t.len() && t[i] == '\u{1f}' && forall|k: int|
                        0 <= k < i ==> t[k] != '\u{1f}';
                (some_if(t.subrange(0, i)), some_if(t.subrange(i + 1, t.len() as int)))
            } else {
                (some_if(t), None)
            }
        },
    }
}

fn some_if_nonempty(v: &Vec<char>) -> (r: Option<String>)
    ensures
        opt_view(r) == if v@.len() > 0 {
            Some(v@)
        } else {
            None
        },
{
    if v.len() > 0 {
        Some(string_of(v))
    } else {
        None
    }
}

/// Reads the author name and email of `HEAD` from the log output (`None`
/// where the call failed).
pub fn get_head_author(out: Option<&str>) -> (r: (Option<String>, Option<String>))
    ensures
        (opt_view(r.0), opt_view(r.1)) == head_author_of(
            match out {
                Some(o) => Some(o@),
                None => None,
            },
        ),
{
    match out {
        None => (None, None),
        Some(o) => {
            let t = trim_chars(&chars_of(o));
            match crate::text::find_char(&t, '\u{1f}') {
                Some(i) => {
                    proof {
                        let c = choose|c: int|
                            0 <= c < t@.len() && t@[c] == '\u{1f}' && forall|k: int|
                                0 <= k < c ==> t@[k] != '\u{1f}';
                        assert(0 <= c < t@.len() && t@[c] == '\u{1f}' && forall|k: int|
                            0 <= k < c ==> t@[k] != '\u{1f}');
                        if c > i {
                            assert(t@[i as int] == '\u{1f}');
                        }
                        assert(c == i);
                    }
                    let name = crate::text::slice_of(&t, 0, i);
                    let email = crate::text::slice_of(&t, i + 1, t.len());
                    (some_if_nonempty(&name), some_if_nonempty(&email))
                },
                None => (some_if_nonempty(&t), None),
            }
        },
    }
}

pub open spec fn rebase_status_of(p: RebaseProbe) -> RebaseStatus {
    if !p.rebase_head && !p.merge_dir_exists {
        RebaseStatus::Completed
    } else if p.conflict_files@.len() > 0 {
        RebaseStatus::Conflicts
    } else {
        RebaseStatus::StoppedAtEdit
    }
}

/// The rebase state that the sentinels show: complete when neither
/// `REBASE_HEAD` nor the rebase directory is left; else stopped on conflicts
/// when paths are unmerged, or stopped for editing.
pub fn detect_rebase_state(p: &RebaseProbe) -> (r: InteractiveRebaseResult)
    ensures
        r.status == rebase_status_of(*p),
        r.status == RebaseStatus::Completed ==> r.message@ == "Rebase completed successfully."@
            && r.current_step is None && r.total_steps is None && r.stopped_commit_hash is None
            && r.stopped_commit_message is None && r.stopped_commit_author_name is None
            && r.stopped_commit_author_email is None && r.conflict_files@.len() == 0,
        r.status == RebaseStatus::Conflicts ==> r.message@ == "Rebase stopped due to conflicts."@,
        r.status == RebaseStatus::StoppedAtEdit ==> r.message@ == "Rebase stopped for editing."@,
        r.status != RebaseStatus::Completed ==> {
            &&& r.current_step == step_number(opt_view(p.msgnum))
            &&& r.total_steps == step_number(opt_view(p.end))
            &&& opt_view(r.stopped_commit_hash) == trimmed_text(opt_view(p.stopped_sha))
            &&& opt_view(r.stopped_commit_message) == trimmed_text(opt_view(p.message))
            &&& (opt_view(r.stopped_commit_author_name), opt_view(r.stopped_commit_author_email))
                == head_author_of(opt_view(p.head_author))
            &&& crate::status::string_views(r.conflict_files@) == crate::status::string_views(
                p.conflict_files@,
            )
        },
{
    if !p.rebase_head && !p.merge_dir_exists {
        return completed_result(string_from("Rebase completed successfully."));
    }
    let author = match &p.head_author {
        Some(a) => get_head_author(Some(a.as_str())),
        None => get_head_author(None),
    };
    let conflicts = p.conflict_files.len() > 0;
    InteractiveRebaseResult {
        status: if conflicts {
            RebaseStatus::Conflicts
        } else {
            RebaseStatus::StoppedAtEdit
        },
        message: if conflicts {
            string_from("Rebase stopped due to conflicts.")
        } else {
            string_from("Rebase stopped for editing.")
        },
        current_step: step_number_of(&p.msgnum),
        total_steps: step_number_of(&p.end),
        stopped_commit_hash: trimmed_opt(&p.stopped_sha),
        stopped_commit_message: trimmed_opt(&p.message),
        stopped_commit_author_name: author.0,
        stopped_commit_author_email: author.1,
        conflict_files: p.conflict_files.clone(),
    }
}

/// Refuses a rebase start with no plan entries, or while a rebase or a
/// merge is under way.
pub fn check_rebase_start(n_entries: usize, rebase_in_progress: bool, merge_in_progress: bool) -> (r:
    Result<(), String>)
    ensures
        n_entries == 0 ==> (r matches Err(e) && e@ == "No commits selected for rebase."@),
        n_entries > 0 && rebase_in_progress ==> (r matches Err(e) && e@
            == "A rebase is already in progress."@),
        n_entries > 0 && !rebase_in_progress && merge_in_progress ==> (r matches Err(e) && e@
            == "A merge is in progress. Resolve it first."@),
        n_entries > 0 && !rebase_in_progress && !merge_in_progress ==> r is Ok,
{
    if n_entries == 0 {
        Err(string_from("No commits selected for rebase."))
    } else if rebase_in_progress {
        Err(string_from("A rebase is already in progress."))
    } else if merge_in_progress {
        Err(string_from("A merge is in progress. Resolve it first."))
    } else {
        Ok(())
    }
}

/// The lines, each ended by a newline.
pub open spec fn joined_lines(ls: Seq<Seq<char>>) -> Seq<char>
    decreases ls.len(),
{
    if ls.len() == 0 {
        seq![]
    } else {
        joined_lines(ls.drop_last()) + ls.last() + seq!['\n']
    }
}

/// The instruction file: the lines joined by newlines, with a final one.
pub open spec fn todo_content_of(ls: Seq<Seq<char>>) -> Seq<char> {
    if ls.len() == 0 {
        seq!['\n']
    } else {
        joined_lines(ls)
    }
}

/// The text of the instruction file for the native rebase.
pub fn todo_file_content(lines: &Vec<String>) -> (r: String)
    ensures
        r@ == todo_content_of(arg_views(lines@)),
{
    if lines.len() == 0 {
        return string_of(&vec!['\n']);
    }
    let ghost ls = arg_views(lines@);
    let mut out: Vec<char> = Vec::new();
    let mut i: usize = 0;
    while i < lines.len()
        invariant
            i <= lines.len(),
            ls == arg_views(lines@),
            out@ == joined_lines(ls.take(i as int)),
        decreases lines.len() - i,
    {
        proof {
            assert(ls.take(i + 1).drop_last() == ls.take(i as int));
            assert(ls.take(i + 1).last() == lines@[i as int]@);
        }
        let l = chars_of(lines[i].as_str());
        out = concat(&out, &l);
        out.push('\n');
        i += 1;
    }
    proof {
        assert(ls.take(lines.len() as int) == ls);
    }
    string_of(&out)
}

/// The sequence-editor script that overwrites the file git hands it with
/// the prepared instruction list.
pub open spec fn editor_script_of(content: Seq<char>) -> Seq<char> {
    let body = if content.len() > 0 && content.last() == '\n' {
        content
    } else {
        content.push('\n')
    };
    "#!/bin/sh\ncat > \"$1\" << 'REBASE_TODO_EOF'\n"@ + body + "REBASE_TODO_EOF\n"@
}

pub fn sequence_editor_script(content: &String) -> (r: String)
    ensures
        r@ == editor_script_of(content@),
{
    let head = chars_of("#!/bin/sh\ncat > \"$1\" << 'REBASE_TODO_EOF'\n");
    let mut body = chars_of(content.as_str());
    if !(body.len() > 0 && body[body.len() - 1] == '\n') {
        body.push('\n');
    }
    let tail = chars_of("REBASE_TODO_EOF\n");
    let all = concat(&concat(&head, &body), &tail);
    string_of(&all)
}

/// A commit offered for an interactive rebase.
pub struct InteractiveRebaseCommitInfo {
    pub hash: String,
    pub short_hash: String,
    pub subject: String,
    pub body: String,
    pub author_name: String,
    pub author_email: String,
    pub author_date: String,
    pub is_pushed: bool,
}

/// The value of an [`InteractiveRebaseCommitInfo`]: the seven fields in
/// order, then whether the commit is on a remote.
pub open spec fn commit_info_view(c: InteractiveRebaseCommitInfo) -> (Seq<Seq<char>>, bool) {
    (
        seq![
            c.hash@,
            c.short_hash@,
            c.subject@,
            c.body@,
            c.author_name@,
            c.author_email@,
            c.author_date@,
        ],
        c.is_pushed,
    )
}

/// Field `k` of a `splitn` result, trimmed; empty where missing.
pub open spec fn trimmed_field(parts: Seq<Seq<char>>, k: int) -> Seq<char> {
    if 0 <= k < parts.len() {
        trim(parts[k])
    } else {
        seq![]
    }
}

/// The commit that one `%H %h %s %b %an %ae %ad` record (fields split by
/// U+001F, the last one taking the rest) describes, unless its hash is
/// empty; `pushed` lists the commits on a remote.
pub open spec fn rebase_commit_record(rec: Seq<char>, pushed: Seq<Seq<char>>) -> Option<
    (Seq<Seq<char>>, bool),
> {
    let r = trim(rec);
    let parts = splitn(r, 7, '\u{1f}');
    let fields = Seq::new(7, |k: int| trimmed_field(parts, k));
    if r.len() == 0 || fields[0].len() == 0 {
        None
    } else {
        Some((fields, pushed.contains(fields[0])))
    }
}

/// The commits of the records (split by U+001E), in order.
pub open spec fn rebase_commit_records(recs: Seq<Seq<char>>, pushed: Seq<Seq<char>>) -> Seq<
    (Seq<Seq<char>>, bool),
>
    decreases recs.len(),
{
    if recs.len() == 0 {
        seq![]
    } else {
        let r = rebase_commit_records(recs.drop_last(), pushed);
        match rebase_commit_record(recs.last(), pushed) {
            Some(c) => r.push(c),
            None => r,
        }
    }
}

fn contains_text(v: &Vec<String>, s: &String) -> (r: bool)
    ensures
        r == string_views(v@).contains(s@),
{
    let mut i: usize = 0;
    while i < v.len()
        invariant
            i <= v.len(),
            forall|k: int| 0 <= k < i ==> v@[k]@ != s@,
        decreases v.len() - i,
    {
        if v[i] == *s {
            proof {
                assert(string_views(v@)[i as int] == s@);
            }
            return true;
        }
        i += 1;
    }
    proof {
        if string_views(v@).contains(s@) {
            let k = choose|k: int| 0 <= k < v@.len() && string_views(v@)[k] == s@;
            assert(v@[k]@ == s@);
        }
    }
    false
}

fn trimmed_field_of(parts: &Vec<Vec<char>>, k: usize) -> (r: String)
    ensures
        r@ == trimmed_field(views(parts@), k as int),
{
    if k < parts.len() {
        string_of(&trim_chars(&parts[k]))
    } else {
        String::new()
    }
}

fn rebase_commit_record_of(rec: &Vec<char>, pushed: &Vec<String>) -> (r: Option<
    InteractiveRebaseCommitInfo,
>)
    ensures
        match r {
            Some(c) => rebase_commit_record(rec@, string_views(pushed@)) == Some(commit_info_view(c)),
            None => rebase_commit_record(rec@, string_views(pushed@)) is None,
        },
{
    let r = trim_chars(rec);
    let parts = splitn_chars(&r, 7, '\u{1f}');
    let hash = trimmed_field_of(&parts, 0);
    if r.len() == 0 || hash.as_str().unicode_len() == 0 {
        proof {
            let fields = Seq::new(7, |k: int| trimmed_field(views(parts@), k));
            assert(fields[0] == hash@);
        }
        return None;
    }
    let is_pushed = contains_text(pushed, &hash);
    let c = InteractiveRebaseCommitInfo {
        hash,
        short_hash: trimmed_field_of(&parts, 1),
        subject: trimmed_field_of(&parts, 2),
        body: trimmed_field_of(&parts, 3),
        author_name: trimmed_field_of(&parts, 4),
        author_email: trimmed_field_of(&parts, 5),
        author_date: trimmed_field_of(&parts, 6),
        is_pushed,
    };
    proof {
        let fields = Seq::new(7, |k: int| trimmed_field(views(parts@), k));
        assert(commit_info_view(c).0 =~= fields);
    }
    Some(c)
}

/// Parses the `git log` records of the commits offered for a rebase.
pub fn parse_rebase_commits(stdout: &str, pushed: &Vec<String>) -> (r: Vec<InteractiveRebaseCommitInfo>)
    ensures
        r@.map_values(|c: InteractiveRebaseCommitInfo| commit_info_view(c)) == rebase_commit_records(
            split_on(stdout@, '\u{1e}'),
            string_views(pushed@),
        ),
{
    let recs = split_chars(&chars_of(stdout), '\u{1e}');
    let ghost rs = views(recs@);
    let mut out: Vec<InteractiveRebaseCommitInfo> = Vec::new();
    let mut i: usize = 0;
    while i < recs.len()
        invariant
            i <= recs.len(),
            rs == views(recs@),
            out@.map_values(|c: InteractiveRebaseCommitInfo| commit_info_view(c))
                == rebase_commit_records(rs.take(i as int), string_views(pushed@)),
        decreases recs.len() - i,
    {
        proof {
            assert(rs.take(i + 1).drop_last() == rs.take(i as int));
            assert(rs.take(i + 1).last() == recs@[i as int]@);
        }
        match rebase_commit_record_of(&recs[i], pushed) {
            Some(c) => {
                let ghost before = out@;
                let ghost cv = commit_info_view(c);
                out.push(c);
                proof {
                    assert(out@.map_values(|c: InteractiveRebaseCommitInfo| commit_info_view(c))
                        =~= before.map_values(
                        |c: InteractiveRebaseCommitInfo| commit_info_view(c),
                    ).push(cv));
                }
            },
            None => {},
        }
        i += 1;
    }
    proof {
        assert(rs.take(recs.len() as int) == rs);
    }
    out
}

/// The base of the commit list: the given base, else the upstream that
/// `git rev-parse --abbrev-ref @{upstream}` printed, else none (the whole
/// history).
pub open spec fn rebase_base_of(base: Option<Seq<char>>, upstream: Seq<char>) -> Seq<char> {
    match base {
        Some(b) => if trim(b).len() > 0 {
            trim(b)
        } else {
            trim(upstream)
        },
        None => trim(upstream),
    }
}

pub fn rebase_base_ref(base: Option<&str>, upstream: &str) -> (r: String)
    ensures
        r@ == rebase_base_of(
            match base {
                Some(b) => Some(b@),
                None => None,
            },
            upstream@,
        ),
{
    match base {
        Some(b) => {
            let t = trim_chars(&chars_of(b));
            if t.len() > 0 {
                return string_of(&t);
            }
        },
        None => {},
    }
    string_of(&trim_chars(&chars_of(upstream)))
}

/// The revision range of the commit list: `<base>..HEAD`, or `HEAD`.
pub fn rebase_range(base_ref: &str) -> (r: String)
    ensures
        base_ref@.len() == 0 ==> r@ == "HEAD"@,
        base_ref@.len() > 0 ==> r@ == base_ref@ + "..HEAD"@,
{
    let b = chars_of(base_ref);
    if b.len() == 0 {
        string_from("HEAD")
    } else {
        string_of(&concat(&b, &chars_of("..HEAD")))
    }
}

/// A `git log` failure of the commit list that only says there is nothing
/// to list.
pub open spec fn no_commits_error(stderr: Seq<char>) -> bool {
    no_commits_lowered(lower_of(stderr))
}

/// The lowercased diagnostic says there is nothing to list.
pub open spec fn no_commits_lowered(l: Seq<char>) -> bool {
    contains(l, "unknown revision"@) || contains(l, "does not have any commits"@)
}

/// Whether a lowercased `git log` diagnostic says there is nothing to list.
pub fn is_no_commits_lowered(l: &str) -> (r: bool)
    ensures
        r == no_commits_lowered(l@),
{
    let v = chars_of(l);
    contains_chars(&v, &chars_of("unknown revision")) || contains_chars(
        &v,
        &chars_of("does not have any commits"),
    )
}

/// The commit list that a `git log` run gave.
pub fn rebase_commits_outcome(success: bool, stdout: &str, stderr: &str, pushed: &Vec<String>) -> (r:
    Result<Vec<InteractiveRebaseCommitInfo>, String>)
    ensures
        success ==> (r matches Ok(v) && v@.map_values(
            |c: InteractiveRebaseCommitInfo| commit_info_view(c),
        ) == rebase_commit_records(split_on(stdout@, '\u{1e}'), string_views(pushed@))),
        !success && no_commits_error(stderr@) ==> (r matches Ok(v) && v@.len() == 0),
        !success && !no_commits_error(stderr@) ==> (r matches Err(e) && e@ == "git log failed: "@
            + stderr@),
{
    if success {
        return Ok(parse_rebase_commits(stdout, pushed));
    }
    if is_no_commits_lowered(lowercase(stderr).as_str()) {
        return Ok(Vec::new());
    }
    Err(string_of(&concat(&chars_of("git log failed: "), &chars_of(stderr))))
}

/// A file that the stopped commit touched.
pub struct EditStopFileEntry {
    pub status: String,
    pub path: String,
    pub old_path: Option<String>,
}

/// The entry of one `git diff-tree --name-status` line
/// `<status>\t<path>[\t<new path>]`: a rename or copy keeps its letter
/// alone and names the new path, with the old one.
pub open spec fn edit_file_line(line: Seq<char>) -> Option<(Seq<char>, Seq<char>, Option<Seq<char>>)> {
    let l = trim(line);
    let parts = splitn(l, 3, '\t');
    if l.len() == 0 || parts.len() < 2 {
        None
    } else if parts[0].len() > 0 && (parts[0][0] == 'R' || parts[0][0] == 'C') {
        Some(
            (
                seq![parts[0][0]],
                if parts.len() > 2 {
                    parts[2]
                } else {
                    seq![]
                },
                Some(parts[1]),
            ),
        )
    } else {
        Some((parts[0], parts[1], None))
    }
}

pub open spec fn edit_file_lines(ls: Seq<Seq<char>>) -> Seq<(Seq<char>, Seq<char>, Option<Seq<char>>)>
    decreases ls.len(),
{
    if ls.len() == 0 {
        seq![]
    } else {
        let r = edit_file_lines(ls.drop_last());
        match edit_file_line(ls.last()) {
            Some(e) => r.push(e),
            None => r,
        }
    }
}

pub open spec fn edit_file_view(e: EditStopFileEntry) -> (Seq<char>, Seq<char>, Option<Seq<char>>) {
    (e.status@, e.path@, opt_view(e.old_path))
}

fn edit_file_line_of(line: &Vec<char>) -> (r: Option<EditStopFileEntry>)
    ensures
        match r {
            Some(e) => edit_file_line(line@) == Some(edit_file_view(e)),
            None => edit_file_line(line@) is None,
        },
{
    let l = trim_chars(line);
    let parts = splitn_chars(&l, 3, '\t');
    if l.len() == 0 || parts.len() < 2 {
        return None;
    }
    proof {
        assert(views(parts@)[0] == parts@[0]@);
        assert(views(parts@)[1] == parts@[1]@);
        if parts.len() > 2 {
            assert(views(parts@)[2] == parts@[2]@);
        }
    }
    if parts[0].len() > 0 && (parts[0][0] == 'R' || parts[0][0] == 'C') {
        let new_path = if parts.len() > 2 {
            string_of(&parts[2])
        } else {
            String::new()
        };
        let st = vec![parts[0][0]];
        proof {
            assert(st@ =~= seq![parts@[0]@[0]]);
        }
        Some(EditStopFileEntry { status: string_of(&st), path: new_path, old_path: Some(string_of(&parts[1])) })
    } else {
        Some(EditStopFileEntry { status: string_of(&parts[0]), path: string_of(&parts[1]), old_path: None })
    }
}

/// The files that the stopped commit touched, from
/// `git diff-tree --no-commit-id -r --name-status HEAD` output.
pub fn parse_edit_stop_files(stdout: &str) -> (r: Vec<EditStopFileEntry>)
    ensures
        r@.map_values(|e: EditStopFileEntry| edit_file_view(e)) == edit_file_lines(lines(stdout@)),
{
    let ls = lines_of(&chars_of(stdout));
    let ghost lv = views(ls@);
    let mut out: Vec<EditStopFileEntry> = Vec::new();
    let mut i: usize = 0;
    while i < ls.len()
        invariant
            i <= ls.len(),
            lv == views(ls@),
            out@.map_values(|e: EditStopFileEntry| edit_file_view(e)) == edit_file_lines(
                lv.take(i as int),
            ),
        decreases ls.len() - i,
    {
        proof {
            assert(lv.take(i + 1).drop_last() == lv.take(i as int));
            assert(lv.take(i + 1).last() == ls@[i as int]@);
        }
        match edit_file_line_of(&ls[i]) {
            Some(e) => {
                let ghost before = out@;
                let ghost ev = edit_file_view(e);
                out.push(e);
                proof {
                    assert(out@.map_values(|e: EditStopFileEntry| edit_file_view(e)) =~= before.map_values(
                        |e: EditStopFileEntry| edit_file_view(e),
                    ).push(ev));
                }
            },
            None => {},
        }
        i += 1;
    }
    proof {
        assert(lv.take(ls.len() as int) == lv);
    }
    out
}

} // verus!
