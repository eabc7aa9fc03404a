//! Listing the files of a branch: the default branch from git's answers,
//! the paths of `git ls-tree`, and their order, fuzzy-ranked for a pattern.
use vstd::prelude::*;
use vstd::seq_lib::group_to_multiset_ensures;

use crate::text::{
    chars_eq_str, chars_of, lemma_split_nonempty, slice_of, split_chars, split_spec, starts_with,
    starts_with_str, string_of, trim_chars, trim_spec,
};

verus! {

broadcast use group_to_multiset_ensures;

/// The branch named by one of git's answers for `origin/HEAD`: the text
/// after `prefix` in the trimmed output, when there is some and it is not
/// `HEAD`.
pub open spec fn branch_after(out: Seq<char>, prefix: Seq<char>) -> Option<Seq<char>> {
    let t = trim_spec(out);
    if starts_with(t, prefix) {
        let b = t.skip(prefix.len() as int);
        if b.len() > 0 && b != "HEAD"@ {
            Some(b)
        } else {
            None
        }
    } else {
        None
    }
}

fn branch_from(out: &str, prefix: &str) -> (r: Option<String>)
    ensures
        match r {
            Some(b) => branch_after(out@, prefix@) == Some(b@),
            None => branch_after(out@, prefix@) is None,
        },
{
    let t = trim_chars(&chars_of(out));
    let p = chars_of(prefix);
    if !crate::text::matches_at(&t, &p, 0) {
        return None;
    }
    let b = slice_of(&t, p.len(), t.len());
    assert(b@ =~= t@.skip(p@.len() as int));
    if b.len() > 0 && !chars_eq_str(&b, "HEAD") {
        Some(string_of(&b))
    } else {
        None
    }
}

/// The default branch of `origin`, from the outputs of
/// `git symbolic-ref refs/remotes/origin/HEAD` and of
/// `git rev-parse --abbrev-ref origin/HEAD` (`None` where the command
/// failed): the first that names a branch.
pub fn detect_origin_head_branch(symbolic_ref: Option<&str>, abbrev_ref: Option<&str>) -> (r: Option<
    String,
>)
    ensures
        ({
            let first = match symbolic_ref {
                Some(o) => branch_after(o@, "refs/remotes/origin/"@),
                None => None,
            };
            let second = match abbrev_ref {
                Some(o) => branch_after(o@, "origin/"@),
                None => None,
            };
            match r {
                Some(b) => (first == Some(b@)) || (first is None && second == Some(b@)),
                None => first is None && second is None,
            }
        }),
{
    match symbolic_ref {
        Some(o) => match branch_from(o, "refs/remotes/origin/") {
            Some(b) => {
                return Some(b);
            },
            None => {},
        },
        None => {},
    }
    match abbrev_ref {
        Some(o) => branch_from(o, "origin/"),
        None => None,
    }
}

/// The paths that `git ls-tree -r --name-only` printed: its lines, trimmed,
/// without the empty ones.
pub open spec fn listed_paths(lines: Seq<Seq<char>>) -> Seq<Seq<char>>
    decreases lines.len(),
{
    if lines.len() == 0 {
        Seq::empty()
    } else {
        let prev = listed_paths(lines.drop_last());
        let t = trim_spec(lines.last());
        if t.len() > 0 {
            prev.push(t)
        } else {
            prev
        }
    }
}

pub open spec fn strs(v: Seq<String>) -> Seq<Seq<char>> {
    v.map_values(|s: String| s@)
}

/// The relative paths of a branch's files.
pub fn parse_ls_tree(out: &str) -> (r: Vec<String>)
    ensures
        strs(r@) == listed_paths(split_spec(out@, '\n')),
{
    let lines = split_chars(&chars_of(out), '\n');
    let ghost ls = split_spec(out@, '\n');
    let mut res: Vec<String> = Vec::new();
    for i in 0..lines.len()
        invariant
            lines@.len() == ls.len(),
            forall|k: int| 0 <= k < lines@.len() ==> #[trigger] lines@[k]@ == ls[k],
            strs(res@) == listed_paths(ls.subrange(0, i as int)),
    {
        proof {
            assert(ls.subrange(0, i + 1).drop_last() =~= ls.subrange(0, i as int));
            assert(ls.subrange(0, i + 1).last() == ls[i as int]);
        }
        let t = trim_chars(&lines[i]);
        if t.len() > 0 {
            let s = string_of(&t);
            let ghost before = strs(res@);
            res.push(s);
            assert(strs(res@) =~= before.push(t@));
        }
    }
    proof {
        assert(ls.subrange(0, lines@.len() as int) =~= ls);
    }
    res
}

/// The score of a fuzzy match of `pattern` in `choice`, `None` when it does
/// not match.
pub uninterp spec fn skim_score(choice: Seq<char>, pattern: Seq<char>) -> Option<i64>;

/// Relies on `fuzzy_matcher::skim::SkimMatcherV2` with its default settings
/// (`FuzzyMatcher::fuzzy_match`): the score of `pattern` in `choice`.
#[verifier::external_body]
fn fuzzy_score(choice: &str, pattern: &str) -> (r: Option<i64>)
    ensures
        r == skim_score(choice@, pattern@),
{
    fuzzy_matcher::FuzzyMatcher::fuzzy_match(
        &fuzzy_matcher::skim::SkimMatcherV2::default(),
        choice,
        pattern,
    )
}

/// Code-point order of two texts, as `str`'s `Ord`.
pub open spec fn lex_le(a: Seq<char>, b: Seq<char>) -> bool
    decreases a.len(),
{
    if a.len() == 0 {
        true
    } else if b.len() == 0 {
        false
    } else if a[0] != b[0] {
        a[0] < b[0]
    } else {
        lex_le(a.skip(1), b.skip(1))
    }
}

proof fn lemma_lex_total(a: Seq<char>, b: Seq<char>)
    ensures
        lex_le(a, b) || lex_le(b, a),
    decreases a.len(),
{
    if a.len() > 0 && b.len() > 0 && a[0] == b[0] {
        lemma_lex_total(a.skip(1), b.skip(1));
    }
}

proof fn lemma_lex_trans(a: Seq<char>, b: Seq<char>, c: Seq<char>)
    requires
        lex_le(a, b),
        lex_le(b, c),
    ensures
        lex_le(a, c),
    decreases a.len(),
{
    if a.len() > 0 && b.len() > 0 && c.len() > 0 && a[0] == b[0] && b[0] == c[0] {
        lemma_lex_trans(a.skip(1), b.skip(1), c.skip(1));
    }
}

fn lex_le_exec(a: &Vec<char>, b: &Vec<char>) -> (r: bool)
    ensures
        r == lex_le(a@, b@),
{
    let mut i: usize = 0;
    proof {
        assert(a@.skip(0) =~= a@);
        assert(b@.skip(0) =~= b@);
    }
    loop
        invariant
            i <= a@.len(),
            i <= b@.len(),
            lex_le(a@.skip(i as int), b@.skip(i as int)) == lex_le(a@, b@),
        decreases a@.len() - i,
    {
        if i == a.len() {
            return true;
        }
        if i == b.len() {
            return false;
        }
        assert(a@.skip(i as int)[0] == a@[i as int]);
        assert(b@.skip(i as int)[0] == b@[i as int]);
        if a[i] != b[i] {
            return a[i] < b[i];
        }
        assert(a@.skip(i as int).skip(1) =~= a@.skip(i + 1));
        assert(b@.skip(i as int).skip(1) =~= b@.skip(i + 1));
        i = i + 1;
    }
}

/// `x` comes no later than `y`: a higher score first, then the path in
/// code-point order.
pub open spec fn ranks_before(x: (i64, Seq<char>), y: (i64, Seq<char>)) -> bool {
    x.0 > y.0 || (x.0 == y.0 && lex_le(x.1, y.1))
}

pub open spec fn ranked(s: Seq<(i64, Seq<char>)>) -> bool {
    forall|i: int, j: int| 0 <= i < j < s.len() ==> ranks_before(s[i], s[j])
}

pub open spec fn items_view(v: Seq<(i64, String)>) -> Seq<(i64, Seq<char>)> {
    v.map_values(|p: (i64, String)| (p.0, p.1@))
}

/// The paths with their scores, `pattern` (trimmed) matched against each:
/// the ones that match, or all with score 0 when the pattern is absent or
/// blank.
pub open spec fn scored(paths: Seq<Seq<char>>, pattern: Option<Seq<char>>) -> Seq<(i64, Seq<char>)>
    decreases paths.len(),
{
    if paths.len() == 0 {
        Seq::empty()
    } else {
        let prev = scored(paths.drop_last(), pattern);
        let p = paths.last();
        match pattern {
            Some(q) if trim_spec(q).len() > 0 => match skim_score(p, trim_spec(q)) {
                Some(s) => prev.push((s, p)),
                None => prev,
            },
            _ => prev.push((0i64, p)),
        }
    }
}

fn insert_ranked(out: &mut Vec<(i64, String)>, item: (i64, String))
    requires
        ranked(items_view(old(out)@)),
    ensures
        ranked(items_view(final(out)@)),
        items_view(final(out)@).to_multiset() == items_view(old(out)@).to_multiset().insert(
            (item.0, item.1@),
        ),
{
    let ghost x = (item.0, item.1@);
    let iv = chars_of(item.1.as_str());
    let mut k: usize = 0;
    while k < out.len()
        invariant
            k <= out@.len(),
            iv@ == item.1@,
            x == (item.0, item.1@),
            ranked(items_view(out@)),
            forall|j: int| 0 <= j < k ==> ranks_before(#[trigger] items_view(out@)[j], x),
        ensures
            k <= out@.len(),
            forall|j: int| 0 <= j < k ==> ranks_before(#[trigger] items_view(out@)[j], x),
            k < out@.len() ==> ranks_before(x, items_view(out@)[k as int]),
        decreases out@.len() - k,
    {
        let ov = chars_of(out[k].1.as_str());
        let before = item.0 > out[k].0 || (item.0 == out[k].0 && !lex_le_exec(&ov, &iv));
        if before {
            proof {
                let y = items_view(out@)[k as int];
                if x.0 == y.0 {
                    lemma_lex_total(x.1, y.1);
                }
            }
            break;
        }
        proof {
            let y = items_view(out@)[k as int];
            if item.0 == out@[k as int].0 {
                lemma_lex_total(y.1, x.1);
            }
        }
        k = k + 1;
    }
    let ghost s0 = items_view(out@);
    proof {
        if k < out@.len() {
            let y = s0[k as int];
            assert forall|j: int| k <= j < s0.len() implies ranks_before(x, #[trigger] s0[j]) by {
                if j > k {
                    assert(ranks_before(s0[k as int], s0[j]));
                    if x.0 == s0[j].0 {
                        assert(s0[k as int].0 == x.0);
                        lemma_lex_trans(x.1, s0[k as int].1, s0[j].1);
                    }
                }
            }
        }
    }
    out.insert(k, item);
    proof {
        let s1 = items_view(out@);
        assert(s1 =~= s0.insert(k as int, x));
        assert forall|i: int, j: int| 0 <= i < j < s1.len() implies ranks_before(s1[i], s1[j]) by {
            if i < k && j == k {
                assert(s1[i] == s0[i]);
            } else if i == k && j > k {
                assert(s1[j] == s0[j - 1]);
            } else if i < k && j > k {
                assert(s1[i] == s0[i] && s1[j] == s0[j - 1]);
            } else if i > k {
                assert(s1[i] == s0[i - 1] && s1[j] == s0[j - 1]);
            } else {
                assert(s1[i] == s0[i] && s1[j] == s0[j]);
            }
        }
    }
}

/// The paths in listing order: with a pattern, those that match it by
/// descending score, ties by path; without one, all by path.
pub fn rank_paths(paths: &Vec<String>, pattern: Option<&str>) -> (r: Vec<(i64, String)>)
    ensures
        ranked(items_view(r@)),
        items_view(r@).to_multiset() == scored(
            strs(paths@),
            match pattern {
                Some(q) => Some(q@),
                None => None,
            },
        ).to_multiset(),
{
    let ghost pat = match pattern {
        Some(q) => Some(q@),
        None => None::<Seq<char>>,
    };
    let query: Option<String> = match pattern {
        Some(q) => {
            let t = trim_chars(&chars_of(q));
            if t.len() > 0 {
                Some(string_of(&t))
            } else {
                None
            }
        },
        None => None,
    };
    let mut out: Vec<(i64, String)> = Vec::new();
    for i in 0..paths.len()
        invariant
            pat == match pattern {
                Some(q) => Some(q@),
                None => None::<Seq<char>>,
            },
            match query {
                Some(t) => pat matches Some(q) && trim_spec(q).len() > 0 && t@ == trim_spec(q),
                None => !(pat matches Some(q) && trim_spec(q).len() > 0),
            },
            ranked(items_view(out@)),
            items_view(out@).to_multiset() == scored(strs(paths@).subrange(0, i as int), pat).to_multiset(),
    {
        let ghost sub = strs(paths@).subrange(0, i as int);
        proof {
            assert(strs(paths@).subrange(0, i + 1).drop_last() =~= sub);
            assert(strs(paths@).subrange(0, i + 1).last() == paths@[i as int]@);
        }
        match &query {
            Some(t) => match fuzzy_score(paths[i].as_str(), t.as_str()) {
                Some(s) => {
                    insert_ranked(&mut out, (s, paths[i].clone()));
                },
                None => {},
            },
            None => {
                insert_ranked(&mut out, (0i64, paths[i].clone()));
            },
        }
    }
    proof {
        assert(strs(paths@).subrange(0, paths@.len() as int) =~= strs(paths@));
    }
    out
}

} // verus!
