//! Revision resolution: the ordered list of lookups that turn a textual
//! revision into an object id, and the reading of `git merge-base` output.
use vstd::prelude::*;

use crate::text::{
    chars_eq_str, chars_of, push_chars, push_str, slice_of, split_chars, split_spec, starts_with,
    starts_with_str, string_of, trim_chars, trim_spec,
};

verus! {

/// How the merge base of two commits is computed.
#[derive(Clone, Copy, Debug, PartialEq, Eq, Structural)]
pub enum MergeBaseStrategy {
    /// `git merge-base A B`.
    Git,
    /// The breadth-first search over the commit graph.
    Bfs,
}

/// One lookup of the resolution of a revision.
#[derive(Clone, Debug, PartialEq, Eq)]
pub enum RevStep {
    /// The text is a full object id.
    ObjectId(String),
    /// Look up this reference.
    Reference(String),
    /// Ask the revision parser (`HEAD^`, tag names, ...).
    RevParse(String),
}

pub enum StepModel {
    ObjectId(Seq<char>),
    Reference(Seq<char>),
    RevParse(Seq<char>),
}

impl View for RevStep {
    type V = StepModel;

    open spec fn view(&self) -> StepModel {
        match self {
            RevStep::ObjectId(s) => StepModel::ObjectId(s@),
            RevStep::Reference(s) => StepModel::Reference(s@),
            RevStep::RevParse(s) => StepModel::RevParse(s@),
        }
    }
}

pub open spec fn is_hex_char(c: char) -> bool {
    ('0' <= c && c <= '9') || ('a' <= c && c <= 'f') || ('A' <= c && c <= 'F')
}

/// A full SHA-1 object id: 40 hex digits.
pub open spec fn is_full_oid(s: Seq<char>) -> bool {
    s.len() == 40 && forall|i: int| 0 <= i < s.len() ==> is_hex_char(s[i])
}

/// The lookups for `rev`, in order: a full object id as such; a name under
/// `refs/` or `HEAD` directly; `origin/<x>` as `refs/remotes/origin/<x>`;
/// then `refs/remotes/origin/<rev>`, the revision parser, `refs/heads/<rev>`
/// and `refs/tags/<rev>`.
pub open spec fn plan_spec(rev: Seq<char>) -> Seq<StepModel> {
    let first = if is_full_oid(rev) {
        seq![StepModel::ObjectId(rev)]
    } else {
        Seq::empty()
    };
    let direct = if starts_with(rev, "refs/"@) || rev == "HEAD"@ {
        seq![StepModel::Reference(rev)]
    } else {
        Seq::empty()
    };
    let remote = if starts_with(rev, "origin/"@) {
        seq![StepModel::Reference("refs/remotes/origin/"@ + rev.skip(7))]
    } else {
        Seq::empty()
    };
    first + direct + remote + seq![
        StepModel::Reference("refs/remotes/origin/"@ + rev),
        StepModel::RevParse(rev),
        StepModel::Reference("refs/heads/"@ + rev),
        StepModel::Reference("refs/tags/"@ + rev),
    ]
}

pub open spec fn steps_view(v: Seq<RevStep>) -> Seq<StepModel> {
    v.map_values(|s: RevStep| s@)
}

fn is_full_oid_exec(v: &Vec<char>) -> (r: bool)
    ensures
        r == is_full_oid(v@),
{
    if v.len() != 40 {
        return false;
    }
    let mut i: usize = 0;
    while i < v.len()
        invariant
            i <= v.len(),
            forall|j: int| 0 <= j < i ==> is_hex_char(v@[j]),
        decreases v.len() - i,
    {
        let c = v[i];
        if !(('0' <= c && c <= '9') || ('a' <= c && c <= 'f') || ('A' <= c && c <= 'F')) {
            return false;
        }
        i = i + 1;
    }
    true
}

fn prefixed(prefix: &str, rest: &Vec<char>) -> (r: String)
    ensures
        r@ == prefix@ + rest@,
{
    let mut s = string_of(&chars_of(prefix));
    push_chars(&mut s, rest);
    s
}

/// The lookups that resolve `rev`, in the order they are tried.
pub fn resolution_plan(rev: &str) -> (r: Vec<RevStep>)
    ensures
        steps_view(r@) == plan_spec(rev@),
{
    let v = chars_of(rev);
    proof {
        reveal_strlit("origin/");
    }
    let mut out: Vec<RevStep> = Vec::new();
    let ghost first: Seq<StepModel> = if is_full_oid(rev@) {
        seq![StepModel::ObjectId(rev@)]
    } else {
        Seq::empty()
    };
    if is_full_oid_exec(&v) {
        out.push(RevStep::ObjectId(string_of(&v)));
    }
    assert(steps_view(out@) =~= first);
    let ghost direct: Seq<StepModel> = if starts_with(rev@, "refs/"@) || rev@ == "HEAD"@ {
        seq![StepModel::Reference(rev@)]
    } else {
        Seq::empty()
    };
    if starts_with_str(&v, "refs/") || chars_eq_str(&v, "HEAD") {
        out.push(RevStep::Reference(string_of(&v)));
    }
    assert(steps_view(out@) =~= first + direct);
    let ghost remote: Seq<StepModel> = if starts_with(rev@, "origin/"@) {
        seq![StepModel::Reference("refs/remotes/origin/"@ + rev@.skip(7))]
    } else {
        Seq::empty()
    };
    if starts_with_str(&v, "origin/") {
        let rest = slice_of(&v, 7, v.len());
        assert(rest@ =~= rev@.skip(7));
        out.push(RevStep::Reference(prefixed("refs/remotes/origin/", &rest)));
    }
    assert(steps_view(out@) =~= first + direct + remote);
    out.push(RevStep::Reference(prefixed("refs/remotes/origin/", &v)));
    out.push(RevStep::RevParse(string_of(&v)));
    out.push(RevStep::Reference(prefixed("refs/heads/", &v)));
    out.push(RevStep::Reference(prefixed("refs/tags/", &v)));
    assert(steps_view(out@) =~= plan_spec(rev@));
    out
}

/// The first line of `git merge-base` output that is not blank, trimmed.
pub open spec fn first_line_spec(lines: Seq<Seq<char>>) -> Option<Seq<char>>
    decreases lines.len(),
{
    if lines.len() == 0 {
        None
    } else if trim_spec(lines[0]).len() > 0 {
        Some(trim_spec(lines[0]))
    } else {
        first_line_spec(lines.skip(1))
    }
}

/// The merge base that `git merge-base` printed, if any.
pub fn merge_base_from_output(out: &str) -> (r: Option<String>)
    ensures
        match r {
            Some(s) => first_line_spec(split_spec(out@, '\n')) == Some(s@),
            None => first_line_spec(split_spec(out@, '\n')) is None,
        },
{
    let lines = split_chars(&chars_of(out), '\n');
    let ghost ls = split_spec(out@, '\n');
    let mut i: usize = 0;
    proof {
        assert(ls.skip(0) =~= ls);
    }
    while i < lines.len()
        invariant
            ls == split_spec(out@, '\n'),
            lines@.len() == ls.len(),
            forall|k: int| 0 <= k < lines@.len() ==> #[trigger] lines@[k]@ == ls[k],
            i <= lines.len(),
            first_line_spec(ls.skip(i as int)) == first_line_spec(ls),
        decreases lines.len() - i,
    {
        assert(ls.skip(i as int)[0] == ls[i as int]);
        let t = trim_chars(&lines[i]);
        if t.len() > 0 {
            return Some(string_of(&t));
        }
        assert(ls.skip(i as int).skip(1) =~= ls.skip(i + 1));
        i = i + 1;
    }
    None
}

} // verus!
