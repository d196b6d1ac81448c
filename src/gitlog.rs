//! History search: the `git log` arguments that a search asks for, and the
//! branch names that fill in undecorated commits.

use vstd::prelude::*;
use crate::status::string_views;
use crate::text::{
    chars_of, concat, decimal, decimal_chars, eq_str, lines, lines_of,
    opt_view, slice_of, string_from, string_of, trim, trim_chars, views,
};
use crate::patches::{commit_views, CommitView, GitCommit};

verus! {

/// The filters of a history search; every one is optional.
pub struct GitLogSearchParams {
    pub authors: Option<Vec<String>>,
    pub since: Option<String>,
    pub until: Option<String>,
    pub grep: Option<String>,
    pub grep_all_match: Option<bool>,
    pub invert_grep: Option<bool>,
    pub paths: Option<Vec<String>>,
    pub max_count: Option<u32>,
    pub skip: Option<u32>,
    pub merges_only: Option<bool>,
    pub no_merges: Option<bool>,
    pub first_parent: Option<bool>,
    pub all: Option<bool>,
    pub reverse: Option<bool>,
    pub diff_filter: Option<String>,
    pub min_parents: Option<u32>,
    pub max_parents: Option<u32>,
    pub branches: Option<String>,
    pub tags: Option<String>,
    pub remotes: Option<bool>,
    pub follow: Option<bool>,
    pub regexp_ignore_case: Option<bool>,
    pub fixed_strings: Option<bool>,
    pub ancestry_path: Option<bool>,
    pub simplify_by_decoration: Option<bool>,
}

/// The `--pretty` argument whose records the log parser reads.
pub open spec fn pretty_arg() -> Seq<char> {
    "--pretty=format:%H\u{1f}%P\u{1f}%an\u{1f}%ae\u{1f}%ad\u{1f}%s\u{1f}%D\u{1e}"@
}

/// `[flag]` when the option is set to true.
pub open spec fn flag_if(o: Option<bool>, flag: Seq<char>) -> Seq<Seq<char>> {
    if o == Some(true) {
        seq![flag]
    } else {
        seq![]
    }
}

/// `[prefix + value]` for a value that is not blank once trimmed.
pub open spec fn value_arg(o: Option<Seq<char>>, prefix: Seq<char>) -> Seq<Seq<char>> {
    match o {
        Some(v) => if trim(v).len() > 0 {
            seq![prefix + trim(v)]
        } else {
            seq![]
        },
        None => seq![],
    }
}

/// `[--name=value]` for a non-blank value, `[--name]` for a blank one.
pub open spec fn ref_arg(o: Option<Seq<char>>, bare: Seq<char>) -> Seq<Seq<char>> {
    match o {
        Some(v) => if trim(v).len() > 0 {
            seq![bare + "="@ + trim(v)]
        } else {
            seq![bare]
        },
        None => seq![],
    }
}

/// `prefix + trim(x)` for each member that is not blank, in order.
pub open spec fn each_arg(xs: Seq<Seq<char>>, prefix: Seq<char>) -> Seq<Seq<char>>
    decreases xs.len(),
{
    if xs.len() == 0 {
        seq![]
    } else {
        let r = each_arg(xs.drop_last(), prefix);
        if trim(xs.last()).len() > 0 {
            r.push(prefix + trim(xs.last()))
        } else {
            r
        }
    }
}

pub open spec fn opt_list(o: Option<Vec<String>>) -> Seq<Seq<char>> {
    match o {
        Some(v) => string_views(v@),
        None => seq![],
    }
}

/// `[--name=N]` for a number that is given.
pub open spec fn number_arg(o: Option<u32>, prefix: Seq<char>) -> Seq<Seq<char>> {
    match o {
        Some(n) => seq![prefix + decimal(n as nat)],
        None => seq![],
    }
}

/// The filter arguments that select commits by author, date and message.
pub open spec fn match_args_onto(acc: Seq<Seq<char>>, p: GitLogSearchParams) -> Seq<Seq<char>> {
    acc + flag_if(p.all, "--all"@) + each_arg(opt_list(p.authors), "--author="@) + value_arg(
        opt_view(p.since),
        "--since="@,
    ) + value_arg(opt_view(p.until), "--until="@) + value_arg(opt_view(p.grep), "--grep="@)
        + flag_if(p.grep_all_match, "--all-match"@) + flag_if(p.invert_grep, "--invert-grep"@)
        + flag_if(p.regexp_ignore_case, "--regexp-ignore-case"@) + flag_if(
        p.fixed_strings,
        "--fixed-strings"@,
    )
}

/// The filter arguments that select commits by shape and by ref.
pub open spec fn shape_args_onto(acc: Seq<Seq<char>>, p: GitLogSearchParams) -> Seq<Seq<char>> {
    acc + flag_if(p.merges_only, "--merges"@) + flag_if(p.no_merges, "--no-merges"@) + flag_if(
        p.first_parent,
        "--first-parent"@,
    ) + flag_if(p.ancestry_path, "--ancestry-path"@) + flag_if(
        p.simplify_by_decoration,
        "--simplify-by-decoration"@,
    ) + number_arg(p.min_parents, "--min-parents="@) + number_arg(
        p.max_parents,
        "--max-parents="@,
    ) + value_arg(opt_view(p.diff_filter), "--diff-filter="@) + ref_arg(
        opt_view(p.branches),
        "--branches"@,
    ) + ref_arg(opt_view(p.tags), "--tags"@) + flag_if(p.remotes, "--remotes"@)
}

/// The ordering, format, limit and path arguments.
pub open spec fn tail_args_onto(acc: Seq<Seq<char>>, p: GitLogSearchParams) -> Seq<Seq<char>> {
    let paths = each_arg(opt_list(p.paths), seq![]);
    acc + (if p.reverse == Some(true) {
        seq!["--reverse"@]
    } else {
        seq!["--topo-order"@]
    }) + seq!["--date=iso-strict"@, pretty_arg()] + (match p.max_count {
        Some(n) => if n > 0 {
            seq!["-n"@, decimal(n as nat)]
        } else {
            seq![]
        },
        None => seq![],
    }) + (match p.skip {
        Some(s) => if s > 0 {
            seq!["--skip="@ + decimal(s as nat)]
        } else {
            seq![]
        },
        None => seq![],
    }) + flag_if(p.follow, "--follow"@) + (if paths.len() == 0 {
        seq!["HEAD"@]
    } else {
        seq!["--"@] + paths
    })
}

/// The arguments of the `git log` run for a search, in the order they are
/// given: filters, ordering, format, limits, then `HEAD` or the paths.
pub open spec fn log_search_args_of(p: GitLogSearchParams) -> Seq<Seq<char>> {
    tail_args_onto(shape_args_onto(match_args_onto(seq!["--no-pager"@, "log"@], p), p), p)
}

/// An argument list under construction.
struct Args {
    v: Vec<String>,
}

impl Args {
    spec fn view(&self) -> Seq<Seq<char>> {
        string_views(self.v@)
    }

    fn push(&mut self, a: String)
        ensures
            final(self).view() == old(self).view().push(a@),
    {
        let ghost before = self.v@;
        let ghost av = a@;
        self.v.push(a);
        proof {
            assert(string_views(self.v@) =~= string_views(before).push(av));
        }
    }

    fn flag_if(&mut self, o: Option<bool>, flag: &str)
        ensures
            final(self).view() == old(self).view() + flag_if(o, flag@),
    {
        if o == Some(true) {
            self.push(string_from(flag));
        }
        proof {
            assert(final(self).view() =~= old(self).view() + flag_if(o, flag@));
        }
    }

    fn value_arg(&mut self, o: &Option<String>, prefix: &str)
        ensures
            final(self).view() == old(self).view() + value_arg(opt_view(*o), prefix@),
    {
        match o {
            Some(v) => {
                let t = trim_chars(&chars_of(v.as_str()));
                if t.len() > 0 {
                    self.push(string_of(&concat(&chars_of(prefix), &t)));
                }
            },
            None => {},
        }
        proof {
            assert(final(self).view() =~= old(self).view() + value_arg(opt_view(*o), prefix@));
        }
    }

    fn ref_arg(&mut self, o: &Option<String>, bare: &str)
        ensures
            final(self).view() == old(self).view() + ref_arg(opt_view(*o), bare@),
    {
        match o {
            Some(v) => {
                let t = trim_chars(&chars_of(v.as_str()));
                if t.len() > 0 {
                    let with_eq = concat(&chars_of(bare), &chars_of("="));
                    self.push(string_of(&concat(&with_eq, &t)));
                } else {
                    self.push(string_from(bare));
                }
            },
            None => {},
        }
        proof {
            assert(final(self).view() =~= old(self).view() + ref_arg(opt_view(*o), bare@));
        }
    }

    fn number_arg(&mut self, o: Option<u32>, prefix: &str)
        ensures
            final(self).view() == old(self).view() + number_arg(o, prefix@),
    {
        match o {
            Some(n) => {
                self.push(string_of(&concat(&chars_of(prefix), &decimal_chars(n as u64))));
            },
            None => {},
        }
        proof {
            assert(final(self).view() =~= old(self).view() + number_arg(o, prefix@));
        }
    }

    fn each_arg(&mut self, xs: &Vec<String>, prefix: &str)
        ensures
            final(self).view() == old(self).view() + each_arg(string_views(xs@), prefix@),
    {
        let ghost start = self.view();
        let ghost xv = string_views(xs@);
        let p = chars_of(prefix);
        let mut i: usize = 0;
        while i < xs.len()
            invariant
                i <= xs.len(),
                xv == string_views(xs@),
                p@ == prefix@,
                self.view() == start + each_arg(xv.take(i as int), prefix@),
            decreases xs.len() - i,
        {
            proof {
                assert(xv.take(i + 1).drop_last() == xv.take(i as int));
                assert(xv.take(i + 1).last() == xs@[i as int]@);
            }
            let t = trim_chars(&chars_of(xs[i].as_str()));
            if t.len() > 0 {
                self.push(string_of(&concat(&p, &t)));
            }
            proof {
                assert(self.view() =~= start + each_arg(xv.take(i + 1), prefix@));
            }
            i += 1;
        }
        proof {
            assert(xv.take(xs.len() as int) == xv);
        }
    }
}

proof fn lemma_empty_prefix(xs: Seq<Seq<char>>)
    ensures
        each_arg(xs, ""@) == each_arg(xs, seq![]),
    decreases xs.len(),
{
    reveal_strlit("");
    assert(""@ =~= Seq::<char>::empty());
}

/// Whether some path of the list is not blank.
fn has_path_args(paths: &Option<Vec<String>>) -> (r: bool)
    ensures
        r == (each_arg(opt_list(*paths), seq![]).len() > 0),
{
    let mut a = Args { v: Vec::new() };
    proof {
        assert(a.view() =~= seq![]);
        lemma_empty_prefix(opt_list(*paths));
    }
    match paths {
        Some(ps) => a.each_arg(ps, ""),
        None => {},
    }
    proof {
        assert(a.view() =~= each_arg(opt_list(*paths), seq![]));
    }
    a.v.len() > 0
}

fn match_args(a: &mut Args, p: &GitLogSearchParams)
    ensures
        final(a).view() == match_args_onto(old(a).view(), *p),
{
    let ghost start = a.view();
    a.flag_if(p.all, "--all");
    match &p.authors {
        Some(v) => a.each_arg(v, "--author="),
        None => {
            proof {
                assert(each_arg(seq![], "--author="@) =~= seq![]);
            }
        },
    }
    a.value_arg(&p.since, "--since=");
    a.value_arg(&p.until, "--until=");
    a.value_arg(&p.grep, "--grep=");
    a.flag_if(p.grep_all_match, "--all-match");
    a.flag_if(p.invert_grep, "--invert-grep");
    a.flag_if(p.regexp_ignore_case, "--regexp-ignore-case");
    a.flag_if(p.fixed_strings, "--fixed-strings");

}

fn shape_args(a: &mut Args, p: &GitLogSearchParams)
    ensures
        final(a).view() == shape_args_onto(old(a).view(), *p),
{
    let ghost start = a.view();
    a.flag_if(p.merges_only, "--merges");
    a.flag_if(p.no_merges, "--no-merges");
    a.flag_if(p.first_parent, "--first-parent");
    a.flag_if(p.ancestry_path, "--ancestry-path");
    a.flag_if(p.simplify_by_decoration, "--simplify-by-decoration");
    a.number_arg(p.min_parents, "--min-parents=");
    a.number_arg(p.max_parents, "--max-parents=");
    a.value_arg(&p.diff_filter, "--diff-filter=");
    a.ref_arg(&p.branches, "--branches");
    a.ref_arg(&p.tags, "--tags");
    a.flag_if(p.remotes, "--remotes");

}

fn tail_args(a: &mut Args, p: &GitLogSearchParams)
    ensures
        final(a).view() == tail_args_onto(old(a).view(), *p),
{
    let ghost start = a.view();
    if p.reverse == Some(true) {
        a.push(string_from("--reverse"));
    } else {
        a.push(string_from("--topo-order"));
    }
    a.push(string_from("--date=iso-strict"));
    a.push(string_from("--pretty=format:%H\u{1f}%P\u{1f}%an\u{1f}%ae\u{1f}%ad\u{1f}%s\u{1f}%D\u{1e}"));
    let ghost mid = a.view();
    match p.max_count {
        Some(n) => if n > 0 {
            a.push(string_from("-n"));
            a.push(string_of(&decimal_chars(n as u64)));
        },
        None => {},
    }
    match p.skip {
        Some(s) => if s > 0 {
            a.push(string_of(&concat(&chars_of("--skip="), &decimal_chars(s as u64))));
        },
        None => {},
    }
    a.flag_if(p.follow, "--follow");
    let ghost before_paths = a.view();
    let has_paths = has_path_args(&p.paths);
    if !has_paths {
        a.push(string_from("HEAD"));
    } else {
        a.push(string_from("--"));
        proof {
            lemma_empty_prefix(opt_list(p.paths));
        }
        match &p.paths {
            Some(ps) => a.each_arg(ps, ""),
            None => {},
        }
    }
    proof {
        let paths = each_arg(opt_list(p.paths), seq![]);
        if paths.len() > 0 {
            assert(a.view() =~= before_paths + (seq!["--"@] + paths));
        }
    }
}

/// The `git log` arguments for a search.
pub fn log_search_args(p: &GitLogSearchParams) -> (r: Vec<String>)
    ensures
        string_views(r@) == log_search_args_of(*p),
{
    let mut a = Args { v: Vec::new() };
    proof {
        assert(a.view() =~= seq![]);
    }
    a.push(string_from("--no-pager"));
    a.push(string_from("log"));
    proof {
        assert(a.view() =~= seq!["--no-pager"@, "log"@]);
    }
    match_args(&mut a, p);
    shape_args(&mut a, p);
    tail_args(&mut a, p);
    a.v
}

/// How many commits below `i` have no decorations.
pub open spec fn undecorated_before(cs: Seq<CommitView>, i: int) -> int
    decreases i,
{
    if i <= 0 {
        0
    } else {
        undecorated_before(cs, i - 1) + if cs[i - 1].refs.len() == 0 {
            1int
        } else {
            0int
        }
    }
}

/// The branch part of a `git name-rev --name-only` name: up to the first
/// `~` or `^`.
pub open spec fn branch_part(name: Seq<char>) -> Seq<char> {
    if exists|i: int| 0 <= i < name.len() && (name[i] == '~' || name[i] == '^') {
        let i = choose|i: int|
            0 <= i < name.len() && (name[i] == '~' || name[i] == '^') && forall|k: int|
                0 <= k < i ==> !(name[k] == '~' || name[k] == '^');
        name.subrange(0, i)
    } else {
        name
    }
}

/// The refs shown for commit `i`: its decorations, or for an undecorated
/// commit the branch that the matching `name-rev` line names, unless that
/// line is blank or `undefined`.
pub open spec fn refs_after_names(cs: Seq<CommitView>, names: Seq<Seq<char>>, i: int) -> Seq<char> {
    let k = undecorated_before(cs, i);
    if cs[i].refs.len() == 0 && k < names.len() && trim(names[k]).len() > 0 && trim(names[k])
        != "undefined"@ {
        branch_part(trim(names[k]))
    } else {
        cs[i].refs
    }
}

/// The hashes of the commits without decorations.
pub open spec fn undecorated(cs: Seq<CommitView>) -> Seq<Seq<char>>
    decreases cs.len(),
{
    if cs.len() == 0 {
        seq![]
    } else {
        let r = undecorated(cs.drop_last());
        if cs.last().refs.len() == 0 {
            r.push(cs.last().hash)
        } else {
            r
        }
    }
}

/// The hashes of the commits without decorations, in order: the arguments
/// of `git name-rev --refs=refs/heads/* --name-only`.
pub fn undecorated_hashes(commits: &Vec<GitCommit>) -> (r: Vec<String>)
    ensures
        string_views(r@) == undecorated(commit_views(commits@)),
        r@.len() == undecorated_before(commit_views(commits@), commits@.len() as int),
{
    let ghost cs = commit_views(commits@);
    let mut out: Vec<String> = Vec::new();
    let mut i: usize = 0;
    while i < commits.len()
        invariant
            i <= commits.len(),
            cs == commit_views(commits@),
            out@.len() == undecorated_before(cs, i as int),
            string_views(out@) == undecorated(cs.take(i as int)),
        decreases commits.len() - i,
    {
        proof {
            assert(cs[i as int] == commits@[i as int]@);
            assert(cs.take(i + 1).drop_last() == cs.take(i as int));
            assert(cs.take(i + 1).last() == cs[i as int]);
        }
        if commits[i].refs.as_str().unicode_len() == 0 {
            let ghost before = out@;
            out.push(commits[i].hash.clone());
            proof {
                assert(string_views(out@) =~= string_views(before).push(commits@[i as int].hash@));
            }
        }
        i += 1;
    }
    proof {
        assert(cs.take(commits.len() as int) == cs);
    }
    out
}

fn branch_part_of(name: &Vec<char>) -> (r: Vec<char>)
    ensures
        r@ == branch_part(name@),
{
    let mut i: usize = 0;
    while i < name.len()
        invariant
            i <= name.len(),
            forall|k: int| 0 <= k < i ==> !(name@[k] == '~' || name@[k] == '^'),
        decreases name.len() - i,
    {
        if name[i] == '~' || name[i] == '^' {
            proof {
                let c = choose|c: int|
                    0 <= c < name@.len() && (name@[c] == '~' || name@[c] == '^') && forall|k: int|
                        0 <= k < c ==> !(name@[k] == '~' || name@[k] == '^');
                assert(0 <= c < name@.len() && (name@[c] == '~' || name@[c] == '^') && forall|
                    k: int,
                | 0 <= k < c ==> !(name@[k] == '~' || name@[k] == '^'));
                if c > i {
                    assert(name@[i as int] == '~' || name@[i as int] == '^');
                }
                assert(c == i);
            }
            return slice_of(name, 0, i);
        }
        i += 1;
    }
    proof {
        assert(name@.subrange(0, name@.len() as int) == name@);
    }
    slice_of(name, 0, name.len())
}

/// Fills in the refs of undecorated commits from `git name-rev` output,
/// one line per undecorated commit in order.
pub fn fill_branch_names(commits: Vec<GitCommit>, name_rev_out: &str) -> (r: Vec<GitCommit>)
    ensures
        r@.len() == commits@.len(),
        forall|i: int|
            0 <= i < r@.len() ==> {
                let c = #[trigger] r@[i]@;
                let o = commits@[i]@;
                &&& c.hash == o.hash && c.parents == o.parents && c.author == o.author
                &&& c.author_email == o.author_email && c.date == o.date && c.subject == o.subject
                &&& c.is_head == o.is_head
                &&& c.refs == refs_after_names(commit_views(commits@), lines(name_rev_out@), i)
            },
{
    let ghost cs = commit_views(commits@);
    let names = lines_of(&chars_of(name_rev_out));
    let mut out: Vec<GitCommit> = Vec::new();
    let mut k: usize = 0;
    let mut i: usize = 0;
    while i < commits.len()
        invariant
            i <= commits.len(),
            cs == commit_views(commits@),
            views(names@) == lines(name_rev_out@),
            out@.len() == i,
            k == undecorated_before(cs, i as int),
            k <= i,
            forall|j: int|
                0 <= j < i ==> {
                    let c = #[trigger] out@[j]@;
                    let o = commits@[j]@;
                    &&& c.hash == o.hash && c.parents == o.parents && c.author == o.author
                    &&& c.author_email == o.author_email && c.date == o.date && c.subject
                        == o.subject
                    &&& c.is_head == o.is_head
                    &&& c.refs == refs_after_names(cs, lines(name_rev_out@), j)
                },
        decreases commits.len() - i,
    {
        let o = &commits[i];
        proof {
            assert(cs[i as int] == o@);
        }
        let undecorated = o.refs.as_str().unicode_len() == 0;
        let mut refs = o.refs.clone();
        if undecorated && k < names.len() {
            let name = trim_chars(&names[k]);
            proof {
                assert(views(names@)[k as int] == names@[k as int]@);
            }
            if name.len() > 0 && !eq_str(&name, "undefined") {
                refs = string_of(&branch_part_of(&name));
            }
        }
        let c = GitCommit {
            hash: o.hash.clone(),
            parents: o.parents.clone(),
            author: o.author.clone(),
            author_email: o.author_email.clone(),
            date: o.date.clone(),
            subject: o.subject.clone(),
            refs,
            is_head: o.is_head,
        };
        proof {
            assert(string_views(c.parents@) =~= string_views(o.parents@));
        }
        out.push(c);
        if undecorated {
            k += 1;
        }
        i += 1;
    }
    out
}

} // verus!
