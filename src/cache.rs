//! The repository cache's decisions: the directory name of a clone, the URL
//! to clone, the least-recently-used index with its capacity bound, and the
//! stale-while-revalidate fetch window.
use vstd::prelude::*;

use crate::text::{
    chars_of, ends_with, lemma_split_nonempty, push_chars, push_str, slice_of, split_chars,
    split_spec, string_of,
};

verus! {

/// How many clones the cache keeps.
pub const MAX_CACHE_REPOS: usize = 20;

/// `s` without every trailing `.git`, as `str::trim_end_matches(".git")`.
pub open spec fn trim_git(s: Seq<char>) -> Seq<char>
    decreases s.len(),
{
    if s.len() >= 4 && ends_with(s, ".git"@) {
        trim_git(s.subrange(0, s.len() - 4))
    } else {
        s
    }
}

pub open spec fn slug_char(c: char) -> char {
    if c == '/' || c == ':' || c == '@' || c == '\\' {
        '_'
    } else {
        c
    }
}

/// The directory name of a clone: `<owner>__<repo>` from the last two path
/// segments of the URL without `.git`; a URL without `/` has its `:`, `@`
/// and `\` replaced by `_`.
pub open spec fn slug_spec(url: Seq<char>) -> Seq<char> {
    let clean = trim_git(url);
    let parts = split_spec(clean, '/');
    if parts.len() >= 2 {
        parts[parts.len() - 2] + "__"@ + parts[parts.len() - 1]
    } else {
        clean.map_values(|c: char| slug_char(c))
    }
}

fn trim_git_suffixes(v: &Vec<char>) -> (r: Vec<char>)
    ensures
        r@ == trim_git(v@),
{
    let suffix = chars_of(".git");
    proof {
        reveal_strlit(".git");
    }
    let mut end = v.len();
    proof {
        assert(v@.subrange(0, v.len() as int) =~= v@);
    }
    while end >= 4 && crate::text::matches_at(v, &suffix, end - 4)
        invariant
            end <= v.len(),
            suffix@ == ".git"@,
            ".git"@.len() == 4,
            trim_git(v@.subrange(0, end as int)) == trim_git(v@),
        decreases end,
    {
        proof {
            let s = v@.subrange(0, end as int);
            assert(s.subrange(s.len() - 4, s.len() as int) =~= v@.subrange(end - 4, end as int));
            assert(ends_with(s, ".git"@));
            assert(s.subrange(0, s.len() - 4) =~= v@.subrange(0, end - 4));
            assert(trim_git(s) == trim_git(s.subrange(0, s.len() - 4)));
        }
        end = end - 4;
    }
    proof {
        let s = v@.subrange(0, end as int);
        if end >= 4 {
            assert(s.subrange(s.len() - 4, s.len() as int) =~= v@.subrange(end - 4, end as int));
        }
    }
    let r = slice_of(v, 0, end);
    proof {
        assert(v@.subrange(0, v.len() as int) =~= v@);
    }
    r
}

/// The directory name of the clone of `url`.
pub fn slug_from_url(url: &str) -> (r: String)
    ensures
        r@ == slug_spec(url@),
{
    let v = chars_of(url);
    let clean = trim_git_suffixes(&v);
    let parts = split_chars(&clean, '/');
    proof {
        lemma_split_nonempty(clean@, '/');
    }
    let n = parts.len();
    if n >= 2 {
        let mut s = string_of(&parts[n - 2]);
        push_str(&mut s, "__");
        push_chars(&mut s, &parts[n - 1]);
        s
    } else {
        let mut out: Vec<char> = Vec::new();
        for i in 0..clean.len()
            invariant
                out@ =~= clean@.subrange(0, i as int).map_values(|c: char| slug_char(c)),
        {
            let c = clean[i];
            let d = if c == '/' || c == ':' || c == '@' || c == '\\' {
                '_'
            } else {
                c
            };
            out.push(d);
            assert(clean@.subrange(0, i + 1).map_values(|c: char| slug_char(c)) =~= clean@.subrange(
                0,
                i as int,
            ).map_values(|c: char| slug_char(c)).push(slug_char(c)));
        }
        assert(clean@.subrange(0, clean.len() as int) =~= clean@);
        string_of(&out)
    }
}

/// Neither a repository URL nor a `owner/name` was given.
#[derive(Clone, Copy, Debug, PartialEq, Eq, Structural)]
pub enum RepoUrlError {
    Missing,
}

impl RepoUrlError {
    pub fn message(&self) -> (r: &'static str)
        ensures
            r@ == "repoUrl or repoFullName required"@,
    {
        "repoUrl or repoFullName required"
    }
}

/// The URL to clone: the explicit URL if given, else the GitHub URL of
/// `owner/name`.
pub fn resolve_repo_url(repo_full_name: Option<&str>, repo_url: Option<&str>) -> (r: Result<
    String,
    RepoUrlError,
>)
    ensures
        match repo_url {
            Some(u) => r matches Ok(s) && s@ == u@,
            None => match repo_full_name {
                Some(f) => r matches Ok(s) && s@ == "https://github.com/"@ + f@ + ".git"@,
                None => r == Err::<String, RepoUrlError>(RepoUrlError::Missing),
            },
        },
{
    match repo_url {
        Some(u) => Ok(string_of(&chars_of(u))),
        None => match repo_full_name {
            Some(f) => {
                let mut s = string_of(&chars_of("https://github.com/"));
                push_str(&mut s, f);
                push_str(&mut s, ".git");
                Ok(s)
            },
            None => Err(RepoUrlError::Missing),
        },
    }
}

/// One clone in the cache index.
#[derive(Clone, Debug, PartialEq, Eq)]
pub struct CacheIndexEntry {
    pub slug: String,
    pub path: String,
    pub last_access_ms: u128,
}

pub struct EntryModel {
    pub slug: Seq<char>,
    pub path: Seq<char>,
    pub last_access_ms: u128,
}

impl View for CacheIndexEntry {
    type V = EntryModel;

    open spec fn view(&self) -> EntryModel {
        EntryModel { slug: self.slug@, path: self.path@, last_access_ms: self.last_access_ms }
    }
}

pub open spec fn index_view(v: Seq<CacheIndexEntry>) -> Seq<EntryModel> {
    v.map_values(|e: CacheIndexEntry| e@)
}

/// The index is ordered from the most to the least recently used.
pub open spec fn is_recent_first(es: Seq<EntryModel>) -> bool {
    forall|i: int, j: int|
        0 <= i < j < es.len() ==> es[i].last_access_ms >= es[j].last_access_ms
}

/// No slug appears twice.
pub open spec fn slugs_unique(es: Seq<EntryModel>) -> bool {
    forall|i: int, j: int| 0 <= i < j < es.len() ==> es[i].slug != es[j].slug
}

pub open spec fn has_slug(es: Seq<EntryModel>, slug: Seq<char>) -> bool {
    exists|i: int| 0 <= i < es.len() && es[i].slug == slug
}

/// The index without the entries of `slug`, in order.
pub open spec fn without_slug(es: Seq<EntryModel>, slug: Seq<char>) -> Seq<EntryModel>
    decreases es.len(),
{
    if es.len() == 0 {
        Seq::empty()
    } else {
        let p = without_slug(es.drop_last(), slug);
        if es.last().slug != slug {
            p.push(es.last())
        } else {
            p
        }
    }
}

/// The position of the first entry used before `now`.
pub open spec fn first_before(es: Seq<EntryModel>, now: u128) -> nat
    decreases es.len(),
{
    if es.len() == 0 {
        0
    } else if es[0].last_access_ms < now {
        0
    } else {
        1 + first_before(es.skip(1), now)
    }
}

/// The index after an access to `slug` at `now`: its old entry is dropped
/// and a fresh one goes in before the first entry used earlier than `now`.
pub open spec fn touched(
    es: Seq<EntryModel>,
    slug: Seq<char>,
    path: Seq<char>,
    now: u128,
) -> Seq<EntryModel> {
    let f = without_slug(es, slug);
    let k = first_before(f, now) as int;
    f.subrange(0, k).push(EntryModel { slug, path, last_access_ms: now }) + f.subrange(
        k,
        f.len() as int,
    )
}

proof fn lemma_first_before(es: Seq<EntryModel>, now: u128)
    ensures
        first_before(es, now) <= es.len(),
        forall|j: int| 0 <= j < first_before(es, now) ==> es[j].last_access_ms >= now,
        first_before(es, now) < es.len() ==> es[first_before(es, now) as int].last_access_ms < now,
    decreases es.len(),
{
    if es.len() > 0 && es[0].last_access_ms >= now {
        lemma_first_before(es.skip(1), now);
        assert forall|j: int| 0 <= j < first_before(es, now) implies es[j].last_access_ms
            >= now by {
            if j > 0 {
                assert(es[j] == es.skip(1)[j - 1]);
            }
        }
    }
}

fn drop_slug(es: &Vec<CacheIndexEntry>, slug: &String) -> (r: Vec<CacheIndexEntry>)
    ensures
        index_view(r@) == without_slug(index_view(es@), slug@),
{
    let mut out: Vec<CacheIndexEntry> = Vec::new();
    for i in 0..es.len()
        invariant
            index_view(out@) == without_slug(index_view(es@).subrange(0, i as int), slug@),
    {
        let ghost pre = index_view(es@).subrange(0, i as int);
        let ghost next = index_view(es@).subrange(0, i + 1);
        proof {
            assert(next.drop_last() =~= pre);
            assert(next.last() == es@[i as int]@);
        }
        let ghost before = index_view(out@);
        if es[i].slug != *slug {
            let e = CacheIndexEntry {
                slug: es[i].slug.clone(),
                path: es[i].path.clone(),
                last_access_ms: es[i].last_access_ms,
            };
            out.push(e);
            assert(index_view(out@) =~= before.push(e@));
        }
    }
    assert(index_view(es@).subrange(0, es.len() as int) =~= index_view(es@));
    out
}

/// Records an access to `slug` at `now` in the cache index.
pub fn touch_index(es: &Vec<CacheIndexEntry>, slug: &String, path: &String, now: u128) -> (r: Vec<
    CacheIndexEntry,
>)
    ensures
        index_view(r@) == touched(index_view(es@), slug@, path@, now),
{
    let f = drop_slug(es, slug);
    let ghost fv = index_view(f@);
    let mut k: usize = 0;
    proof {
        assert(fv.skip(0) =~= fv);
    }
    while k < f.len() && f[k].last_access_ms >= now
        invariant
            k <= f.len(),
            fv == index_view(f@),
            k + first_before(fv.skip(k as int), now) == first_before(fv, now),
        decreases f.len() - k,
    {
        proof {
            assert(fv.skip(k as int)[0] == fv[k as int]);
            assert(fv.skip(k as int).skip(1) =~= fv.skip(k + 1));
        }
        k = k + 1;
    }
    proof {
        if k < f.len() {
            assert(fv.skip(k as int)[0] == fv[k as int]);
        }
    }
    let mut out: Vec<CacheIndexEntry> = Vec::new();
    for i in 0..k
        invariant
            k <= f.len(),
            fv == index_view(f@),
            index_view(out@) =~= fv.subrange(0, i as int),
    {
        assert(fv[i as int] == f@[i as int]@);
        let e = f[i].clone_entry();
        let ghost before = index_view(out@);
        out.push(e);
        assert(index_view(out@) =~= before.push(e@));
    }
    let fresh = CacheIndexEntry { slug: slug.clone(), path: path.clone(), last_access_ms: now };
    out.push(fresh);
    let ghost head = index_view(out@);
    for i in k..f.len()
        invariant
            k <= f.len(),
            fv == index_view(f@),
            index_view(out@) =~= head + fv.subrange(k as int, i as int),
    {
        assert(fv[i as int] == f@[i as int]@);
        let e = f[i].clone_entry();
        let ghost before = index_view(out@);
        out.push(e);
        assert(index_view(out@) =~= before.push(e@));
    }
    out
}

impl CacheIndexEntry {
    pub fn clone_entry(&self) -> (r: CacheIndexEntry)
        ensures
            r@ == self@,
    {
        CacheIndexEntry {
            slug: self.slug.clone(),
            path: self.path.clone(),
            last_access_ms: self.last_access_ms,
        }
    }
}

pub open spec fn kept_len(n: nat) -> nat {
    if n <= MAX_CACHE_REPOS {
        n
    } else {
        MAX_CACHE_REPOS as nat
    }
}

/// Splits a recent-first index into the entries that stay and the clones
/// to delete beyond the capacity.
pub fn enforce_cache_limit(es: &Vec<CacheIndexEntry>) -> (r: (Vec<CacheIndexEntry>, Vec<CacheIndexEntry>))
    ensures
        index_view(r.0@) == index_view(es@).subrange(0, kept_len(es@.len()) as int),
        index_view(r.1@) == index_view(es@).subrange(kept_len(es@.len()) as int, es@.len() as int),
{
    let keep = if es.len() <= MAX_CACHE_REPOS {
        es.len()
    } else {
        MAX_CACHE_REPOS
    };
    let mut survivors: Vec<CacheIndexEntry> = Vec::new();
    let mut victims: Vec<CacheIndexEntry> = Vec::new();
    for i in 0..es.len()
        invariant
            keep == kept_len(es@.len()),
            i <= keep ==> index_view(survivors@) =~= index_view(es@).subrange(0, i as int)
                && victims@.len() == 0,
            i > keep ==> index_view(survivors@) =~= index_view(es@).subrange(0, keep as int)
                && index_view(victims@) =~= index_view(es@).subrange(keep as int, i as int),
    {
        if i < keep {
            survivors.push(es[i].clone_entry());
        } else {
            victims.push(es[i].clone_entry());
        }
    }
    (survivors, victims)
}

/// The index after `ensure_repo` on each slug in turn, starting empty: each
/// call records the access and then keeps the most recent entries only.
pub open spec fn after_calls(
    slugs: Seq<Seq<char>>,
    paths: Seq<Seq<char>>,
    times: Seq<u128>,
) -> Seq<EntryModel>
    decreases slugs.len(),
{
    if slugs.len() == 0 {
        Seq::empty()
    } else {
        let n = slugs.len() - 1;
        let prev = after_calls(slugs.drop_last(), paths, times);
        let t = touched(prev, slugs[n], paths[n], times[n]);
        t.subrange(0, kept_len(t.len()) as int)
    }
}

proof fn lemma_filter_absent(es: Seq<EntryModel>, slug: Seq<char>)
    requires
        !has_slug(es, slug),
    ensures
        without_slug(es, slug) == es,
    decreases es.len(),
{
    if es.len() > 0 {
        assert(!has_slug(es.drop_last(), slug)) by {
            if has_slug(es.drop_last(), slug) {
                let i = choose|i: int| 0 <= i < es.drop_last().len() && es.drop_last()[i].slug == slug;
                assert(es[i].slug == slug);
            }
        }
        lemma_filter_absent(es.drop_last(), slug);
        assert(es[es.len() - 1].slug != slug);
        assert(es.drop_last().push(es.last()) =~= es);
    }
}

/// Every slug in the index after the calls is one of the called slugs.
proof fn lemma_after_calls_slugs(slugs: Seq<Seq<char>>, paths: Seq<Seq<char>>, times: Seq<u128>)
    requires
        paths.len() >= slugs.len(),
        times.len() >= slugs.len(),
    ensures
        forall|i: int|
            0 <= i < after_calls(slugs, paths, times).len() ==> slugs.contains(
                #[trigger] after_calls(slugs, paths, times)[i].slug,
            ),
    decreases slugs.len(),
{
    if slugs.len() > 0 {
        let n = slugs.len() - 1;
        let prev = after_calls(slugs.drop_last(), paths, times);
        lemma_after_calls_slugs(slugs.drop_last(), paths, times);
        let f = without_slug(prev, slugs[n]);
        let t = touched(prev, slugs[n], paths[n], times[n]);
        let k = first_before(f, times[n]) as int;
        lemma_first_before(f, times[n]);
        assert forall|i: int| 0 <= i < t.len() implies slugs.contains(#[trigger] t[i].slug) by {
            if i < k {
                assert(t[i] == f[i]);
                lemma_filter_member(prev, slugs[n], i);
                let j = choose|j: int| 0 <= j < prev.len() && prev[j] == f[i];
                assert(slugs.drop_last().contains(prev[j].slug));
                let m = choose|m: int| 0 <= m < slugs.drop_last().len() && slugs.drop_last()[m]
                    == prev[j].slug;
                assert(slugs[m] == prev[j].slug);
            } else if i == k {
                assert(slugs[n] == t[i].slug);
            } else {
                assert(t[i] == f[i - 1]);
                lemma_filter_member(prev, slugs[n], i - 1);
                let j = choose|j: int| 0 <= j < prev.len() && prev[j] == f[i - 1];
                assert(slugs.drop_last().contains(prev[j].slug));
                let m = choose|m: int| 0 <= m < slugs.drop_last().len() && slugs.drop_last()[m]
                    == prev[j].slug;
                assert(slugs[m] == prev[j].slug);
            }
        }
    }
}

/// An element of the filtered index is an element of the index.
proof fn lemma_filter_member(es: Seq<EntryModel>, slug: Seq<char>, i: int)
    requires
        0 <= i < without_slug(es, slug).len(),
    ensures
        exists|j: int| 0 <= j < es.len() && es[j] == without_slug(es, slug)[i],
    decreases es.len(),
{
    let p = without_slug(es.drop_last(), slug);
    if i < p.len() {
        lemma_filter_member(es.drop_last(), slug, i);
        let j = choose|j: int| 0 <= j < es.drop_last().len() && es.drop_last()[j] == p[i];
        assert(es[j] == p[i]);
    } else {
        assert(es[es.len() - 1] == without_slug(es, slug)[i]);
    }
}

/// After `n` calls of `ensure_repo` on distinct repositories the cache
/// holds `min(n, 20)` clones: exactly 20 once more than 20 were asked for.
pub proof fn lemma_cache_keeps_capacity(
    slugs: Seq<Seq<char>>,
    paths: Seq<Seq<char>>,
    times: Seq<u128>,
)
    requires
        paths.len() >= slugs.len(),
        times.len() >= slugs.len(),
        forall|i: int, j: int| 0 <= i < j < slugs.len() ==> slugs[i] != slugs[j],
    ensures
        after_calls(slugs, paths, times).len() == kept_len(slugs.len()),
    decreases slugs.len(),
{
    if slugs.len() > 0 {
        let n = slugs.len() - 1;
        let pre = slugs.drop_last();
        assert forall|i: int, j: int| 0 <= i < j < pre.len() implies pre[i] != pre[j] by {
            assert(pre[i] == slugs[i] && pre[j] == slugs[j]);
        }
        lemma_cache_keeps_capacity(pre, paths, times);
        let prev = after_calls(pre, paths, times);
        lemma_after_calls_slugs(pre, paths, times);
        assert(!has_slug(prev, slugs[n])) by {
            if has_slug(prev, slugs[n]) {
                let i = choose|i: int| 0 <= i < prev.len() && prev[i].slug == slugs[n];
                assert(pre.contains(prev[i].slug));
                let m = choose|m: int| 0 <= m < pre.len() && pre[m] == prev[i].slug;
                assert(slugs[m] == slugs[n]);
            }
        }
        lemma_filter_absent(prev, slugs[n]);
        lemma_first_before(prev, times[n]);
    }
}

/// Whether to fetch again: never fetched, or the last fetch lies `window_ms`
/// or more in the past (a clock that went back counts as recent).
pub open spec fn fetch_due(last_fetch_ms: Option<u128>, now_ms: u128, window_ms: u128) -> bool {
    match last_fetch_ms {
        None => true,
        Some(t) => now_ms >= t && now_ms - t >= window_ms,
    }
}

/// The stale-while-revalidate decision.
pub fn should_fetch(last_fetch_ms: Option<u128>, now_ms: u128, window_ms: u128) -> (r: bool)
    ensures
        r == fetch_due(last_fetch_ms, now_ms, window_ms),
{
    match last_fetch_ms {
        None => true,
        Some(t) => now_ms >= t && now_ms - t >= window_ms,
    }
}

/// What `ensure_repo` does with the clone directory.
#[derive(Clone, Copy, Debug, PartialEq, Eq, Structural)]
pub enum RepoAction {
    /// The directory is absent: clone with full history.
    Clone,
    /// The directory exists without `.git/HEAD`: remove it and clone again.
    Reclone,
    /// A clone is there: fetch to update it.
    Fetch,
}

/// The action for a clone directory, given whether it exists and whether it
/// holds `.git/HEAD`.
pub fn repo_action(dir_exists: bool, has_git_head: bool) -> (r: RepoAction)
    ensures
        r == if !dir_exists {
            RepoAction::Clone
        } else if !has_git_head {
            RepoAction::Reclone
        } else {
            RepoAction::Fetch
        },
{
    if !dir_exists {
        RepoAction::Clone
    } else if !has_git_head {
        RepoAction::Reclone
    } else {
        RepoAction::Fetch
    }
}

proof fn lemma_without_slug_props(es: Seq<EntryModel>, slug: Seq<char>)
    ensures
        forall|i: int| 0 <= i < without_slug(es, slug).len() ==> #[trigger] without_slug(es, slug)[i].slug != slug,
        is_recent_first(es) ==> is_recent_first(without_slug(es, slug)),
        slugs_unique(es) ==> slugs_unique(without_slug(es, slug)),
    decreases es.len(),
{
    if es.len() > 0 {
        let d = es.drop_last();
        lemma_without_slug_props(d, slug);
        let p = without_slug(d, slug);
        if is_recent_first(es) {
            assert(is_recent_first(d));
        }
        if slugs_unique(es) {
            assert(slugs_unique(d));
        }
        if es.last().slug != slug {
            let w = p.push(es.last());
            assert forall|i: int, j: int| 0 <= i < j < w.len() && is_recent_first(es) implies w[i].last_access_ms
                >= w[j].last_access_ms by {
                if j == w.len() - 1 {
                    lemma_filter_member(d, slug, i);
                    let q = choose|q: int| 0 <= q < d.len() && d[q] == p[i];
                    assert(es[q] == d[q]);
                    assert(es[es.len() - 1] == es.last());
                }
            }
            assert forall|i: int, j: int| 0 <= i < j < w.len() && slugs_unique(es) implies w[i].slug
                != w[j].slug by {
                if j == w.len() - 1 {
                    lemma_filter_member(d, slug, i);
                    let q = choose|q: int| 0 <= q < d.len() && d[q] == p[i];
                    assert(es[q] == d[q]);
                    assert(es[es.len() - 1] == es.last());
                }
            }
        }
    }
}

/// Recording an access keeps the index ordered from the most to the least
/// recently used, with each slug once, and the accessed slug in it.
pub proof fn lemma_touch_keeps_index_ordered(
    es: Seq<EntryModel>,
    slug: Seq<char>,
    path: Seq<char>,
    now: u128,
)
    requires
        is_recent_first(es),
        slugs_unique(es),
    ensures
        is_recent_first(touched(es, slug, path, now)),
        slugs_unique(touched(es, slug, path, now)),
        has_slug(touched(es, slug, path, now), slug),
{
    let f = without_slug(es, slug);
    lemma_without_slug_props(es, slug);
    lemma_first_before(f, now);
    let k = first_before(f, now) as int;
    let e = EntryModel { slug, path, last_access_ms: now };
    let t = touched(es, slug, path, now);
    assert(t.len() == f.len() + 1);
    assert forall|i: int| 0 <= i < t.len() implies #[trigger] t[i] == if i < k {
        f[i]
    } else if i == k {
        e
    } else {
        f[i - 1]
    } by {}
    assert forall|i: int, j: int| 0 <= i < j < t.len() implies t[i].last_access_ms >= t[j].last_access_ms by {
        if i < k && j > k {
            assert(f[i].last_access_ms >= now);
            assert(f[k].last_access_ms < now);
            if j - 1 > k {
                assert(f[k].last_access_ms >= f[j - 1].last_access_ms);
            }
        } else if i == k && j > k {
            assert(f[k].last_access_ms < now);
            if j - 1 > k {
                assert(f[k].last_access_ms >= f[j - 1].last_access_ms);
            }
        }
    }
    assert(t[k].slug == slug);
}

} // verus!
