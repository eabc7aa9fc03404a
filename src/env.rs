//! The environment daemon's state: global and per-directory variables, the
//! change history with its generation counter, the effective variables of a
//! working directory, and the shell script that brings a shell up to date.
use vstd::prelude::*;

use crate::text::{
    chars_of, find_char, first_index, push_char, push_str, slice_of, split_chars, split_spec,
    starts_with, string_of, trim_chars, trim_spec,
};

verus! {

/// How many change events the history keeps.
pub const MAX_HISTORY: usize = 10000;

#[derive(Clone, Copy, Debug, PartialEq, Eq, Structural)]
pub enum ShellKind {
    Bash,
    Zsh,
    Fish,
}

/// Where a variable is set: for every directory, or for one directory and
/// the directories below it.
#[derive(Clone, Debug, PartialEq, Eq)]
pub enum Scope {
    Global,
    Dir(String),
}

/// One recorded change.
#[derive(Clone, Debug, PartialEq, Eq)]
pub struct ChangeEvent {
    pub generation: u64,
    pub key: String,
    pub scope: Scope,
}

/// A request of the daemon's protocol.
#[derive(Clone, Debug, PartialEq, Eq)]
pub enum Request {
    Ping,
    Status,
    SetVar { key: String, value: String, scope: Scope },
    Unset { key: String, scope: Scope },
    Get { key: String, pwd: Option<String> },
    List { pwd: Option<String> },
    Load { entries: Vec<(String, String)>, scope: Scope },
    Export { shell: ShellKind, since: u64, pwd: String },
}

/// A response of the daemon's protocol.
#[derive(Clone, Debug, PartialEq, Eq)]
pub enum Response {
    Pong,
    Status { generation: u64, globals: usize, scopes: usize },
    Done,
    Value { value: Option<String> },
    Entries { entries: Vec<(String, String)> },
    Export { script: String, new_generation: u64 },
    Error { message: String },
}

pub type Pairs = Seq<(Seq<char>, Seq<char>)>;

pub open spec fn pairs_view(v: Seq<(String, String)>) -> Pairs {
    v.map_values(|p: (String, String)| (p.0@, p.1@))
}

/// The value of `k`: the first pair with that key.
pub open spec fn lookup(v: Pairs, k: Seq<char>) -> Option<Seq<char>>
    decreases v.len(),
{
    if v.len() == 0 {
        None
    } else if v[0].0 == k {
        Some(v[0].1)
    } else {
        lookup(v.skip(1), k)
    }
}

pub open spec fn keys_unique(v: Pairs) -> bool {
    forall|i: int, j: int| 0 <= i < j < v.len() ==> v[i].0 != v[j].0
}

proof fn lemma_lookup_push(v: Pairs, x: (Seq<char>, Seq<char>), k: Seq<char>)
    ensures
        lookup(v.push(x), k) == if lookup(v, k) is Some {
            lookup(v, k)
        } else if x.0 == k {
            Some(x.1)
        } else {
            None
        },
    decreases v.len(),
{
    if v.len() > 0 {
        assert(v.push(x).skip(1) =~= v.skip(1).push(x));
        lemma_lookup_push(v.skip(1), x, k);
    } else {
        assert(v.push(x).skip(1) =~= v);
    }
}

proof fn lemma_lookup_update(v: Pairs, i: int, x: (Seq<char>, Seq<char>), k: Seq<char>)
    requires
        0 <= i < v.len(),
        v[i].0 == x.0,
        keys_unique(v),
    ensures
        lookup(v.update(i, x), k) == if k == x.0 {
            Some(x.1)
        } else {
            lookup(v, k)
        },
        keys_unique(v.update(i, x)),
    decreases v.len(),
{
    if i > 0 {
        assert(v.update(i, x).skip(1) =~= v.skip(1).update(i - 1, x));
        lemma_lookup_update(v.skip(1), i - 1, x, k);
    }
    assert(v.update(i, x).skip(1) =~= v.skip(1).update(i - 1, x) || i == 0);
    if i == 0 {
        assert(v.update(0, x).skip(1) =~= v.skip(1));
        if k == x.0 {
        } else {
        }
    }
}

proof fn lemma_lookup_found(v: Pairs, i: int)
    requires
        0 <= i < v.len(),
        keys_unique(v),
    ensures
        lookup(v, v[i].0) == Some(v[i].1),
    decreases v.len(),
{
    if i > 0 {
        lemma_lookup_found(v.skip(1), i - 1);
    }
}

proof fn lemma_lookup_absent(v: Pairs, k: Seq<char>)
    requires
        forall|j: int| 0 <= j < v.len() ==> v[j].0 != k,
    ensures
        lookup(v, k) is None,
    decreases v.len(),
{
    if v.len() > 0 {
        lemma_lookup_absent(v.skip(1), k);
    }
}

proof fn lemma_lookup_remove(v: Pairs, i: int, k: Seq<char>)
    requires
        0 <= i < v.len(),
        keys_unique(v),
    ensures
        lookup(v.remove(i), k) == if k == v[i].0 {
            None
        } else {
            lookup(v, k)
        },
        keys_unique(v.remove(i)),
    decreases v.len(),
{
    if i > 0 {
        assert(v.remove(i).skip(1) =~= v.skip(1).remove(i - 1));
        lemma_lookup_remove(v.skip(1), i - 1, k);
    } else {
        assert(v.remove(0) =~= v.skip(1));
        if k == v[0].0 {
            lemma_lookup_absent(v.skip(1), k);
        }
    }
}

/// Finds the position of `key` among `v`'s pairs.
fn find_key(v: &Vec<(String, String)>, key: &String) -> (r: Option<usize>)
    ensures
        match r {
            Some(i) => i < v.len() && pairs_view(v@)[i as int].0 == key@,
            None => forall|j: int| 0 <= j < v.len() ==> pairs_view(v@)[j].0 != key@,
        },
{
    let mut i: usize = 0;
    while i < v.len()
        invariant
            i <= v.len(),
            forall|j: int| 0 <= j < i ==> pairs_view(v@)[j].0 != key@,
        decreases v.len() - i,
    {
        if v[i].0 == *key {
            return Some(i);
        }
        i = i + 1;
    }
    None
}

fn clone_pair(p: &(String, String)) -> (r: (String, String))
    ensures
        r.0@ == p.0@ && r.1@ == p.1@,
{
    (p.0.clone(), p.1.clone())
}

fn clone_pairs(v: &Vec<(String, String)>) -> (r: Vec<(String, String)>)
    ensures
        pairs_view(r@) == pairs_view(v@),
{
    let mut out: Vec<(String, String)> = Vec::new();
    for i in 0..v.len()
        invariant
            pairs_view(out@) =~= pairs_view(v@).subrange(0, i as int),
    {
        let p = clone_pair(&v[i]);
        let ghost before = pairs_view(out@);
        out.push(p);
        assert(pairs_view(out@) =~= before.push((p.0@, p.1@)));
    }
    out
}

/// Sets `key` to `value` in `v`; returns whether `v` changed.
fn set_pair(v: &mut Vec<(String, String)>, key: &String, value: &String) -> (changed: bool)
    requires
        keys_unique(pairs_view(old(v)@)),
    ensures
        keys_unique(pairs_view(final(v)@)),
        changed == (lookup(pairs_view(old(v)@), key@) != Some(value@)),
        forall|k: Seq<char>|
            #[trigger] lookup(pairs_view(final(v)@), k) == if k == key@ {
                Some(value@)
            } else {
                lookup(pairs_view(old(v)@), k)
            },
{
    let ghost pv = pairs_view(v@);
    match find_key(v, key) {
        Some(i) => {
            proof {
                lemma_lookup_found(pv, i as int);
            }
            if v[i].1 == *value {
                assert forall|k: Seq<char>| #[trigger]
                    lookup(pairs_view(v@), k) == if k == key@ {
                        Some(value@)
                    } else {
                        lookup(pv, k)
                    } by {}
                false
            } else {
                let x = (key.clone(), value.clone());
                v.set(i, x);
                proof {
                    assert(pairs_view(v@) =~= pv.update(i as int, (key@, value@)));
                    assert forall|k: Seq<char>| #[trigger]
                        lookup(pairs_view(v@), k) == if k == key@ {
                            Some(value@)
                        } else {
                            lookup(pv, k)
                        } by {
                        lemma_lookup_update(pv, i as int, (key@, value@), k);
                    }
                    lemma_lookup_update(pv, i as int, (key@, value@), key@);
                }
                true
            }
        },
        None => {
            proof {
                lemma_lookup_absent(pv, key@);
            }
            let x = (key.clone(), value.clone());
            v.push(x);
            proof {
                assert(pairs_view(v@) =~= pv.push((key@, value@)));
                assert forall|k: Seq<char>| #[trigger]
                    lookup(pairs_view(v@), k) == if k == key@ {
                        Some(value@)
                    } else {
                        lookup(pv, k)
                    } by {
                    lemma_lookup_push(pv, (key@, value@), k);
                }
            }
            true
        },
    }
}

/// Removes `key` from `v`; returns whether it was there.
fn remove_pair(v: &mut Vec<(String, String)>, key: &String) -> (changed: bool)
    requires
        keys_unique(pairs_view(old(v)@)),
    ensures
        keys_unique(pairs_view(final(v)@)),
        changed == (lookup(pairs_view(old(v)@), key@) is Some),
        forall|k: Seq<char>|
            #[trigger] lookup(pairs_view(final(v)@), k) == if k == key@ {
                None
            } else {
                lookup(pairs_view(old(v)@), k)
            },
{
    let ghost pv = pairs_view(v@);
    match find_key(v, key) {
        Some(i) => {
            proof {
                lemma_lookup_found(pv, i as int);
            }
            v.remove(i);
            proof {
                assert(pairs_view(v@) =~= pv.remove(i as int));
                assert forall|k: Seq<char>| #[trigger]
                    lookup(pairs_view(v@), k) == if k == key@ {
                        None
                    } else {
                        lookup(pv, k)
                    } by {
                    lemma_lookup_remove(pv, i as int, k);
                }
                lemma_lookup_remove(pv, i as int, key@);
            }
            true
        },
        None => {
            proof {
                lemma_lookup_absent(pv, key@);
            }
            assert forall|k: Seq<char>| #[trigger]
                lookup(pairs_view(v@), k) == if k == key@ {
                    None
                } else {
                    lookup(pv, k)
                } by {
                if k == key@ {
                    lemma_lookup_absent(pv, key@);
                }
            }
            false
        },
    }
}

/// The daemon's state.
#[derive(Debug, Default)]
pub struct State {
    pub generation: u64,
    /// Variables set for every directory, keys unique.
    pub globals: Vec<(String, String)>,
    /// Variables per directory (a canonical path), directories unique, keys
    /// unique within each.
    pub scoped: Vec<(String, Vec<(String, String)>)>,
    pub history: Vec<ChangeEvent>,
}

/// Whether `dir` is `pwd` or one of its ancestors, component by component.
pub open spec fn dir_contains(dir: Seq<char>, pwd: Seq<char>) -> bool {
    starts_with(pwd, dir) && (pwd.len() == dir.len() || (dir.len() > 0 && dir.last() == '/')
        || pwd[dir.len() as int] == '/')
}

/// The most specific directory of `dirs` that contains `pwd`: the longest,
/// the first of equal lengths.
pub open spec fn best_dir(dirs: Seq<Seq<char>>, pwd: Seq<char>) -> Option<int>
    decreases dirs.len(),
{
    if dirs.len() == 0 {
        None
    } else {
        let b = best_dir(dirs.drop_last(), pwd);
        let d = dirs.last();
        if dir_contains(d, pwd) && (b matches Some(i) ==> dirs[i].len() < d.len()) {
            Some(dirs.len() - 1)
        } else {
            b
        }
    }
}

/// Escapes `s` for a single-quoted shell word: `'` becomes `'\''`.
pub open spec fn escape_sh_spec(s: Seq<char>) -> Seq<char>
    decreases s.len(),
{
    if s.len() == 0 {
        Seq::empty()
    } else if s.last() == '\'' {
        escape_sh_spec(s.drop_last()) + seq!['\'', '\\', '\'', '\'']
    } else {
        escape_sh_spec(s.drop_last()).push(s.last())
    }
}

/// Escapes a value for a single-quoted shell word.
pub fn escape_sh(s: &str) -> (r: String)
    ensures
        r@ == escape_sh_spec(s@),
{
    let v = chars_of(s);
    let mut out = String::new();
    for i in 0..v.len()
        invariant
            out@ == escape_sh_spec(v@.subrange(0, i as int)),
    {
        let ghost pre = v@.subrange(0, i as int);
        proof {
            assert(v@.subrange(0, i + 1).drop_last() =~= pre);
        }
        if v[i] == '\'' {
            push_char(&mut out, '\'');
            push_char(&mut out, '\\');
            push_char(&mut out, '\'');
            push_char(&mut out, '\'');
            assert(out@ =~= escape_sh_spec(pre) + seq!['\'', '\\', '\'', '\'']);
        } else {
            push_char(&mut out, v[i]);
        }
    }
    assert(v@.subrange(0, v.len() as int) =~= v@);
    out
}

pub open spec fn digit_char(d: nat) -> char {
    ((d + 48) as u32) as char
}

/// The decimal writing of `n`.
pub open spec fn decimal(n: nat) -> Seq<char>
    decreases n,
{
    if n < 10 {
        seq![digit_char(n)]
    } else {
        decimal(n / 10).push(digit_char(n % 10))
    }
}

/// Appends the decimal writing of `n`.
pub fn push_decimal(s: &mut String, n: u64)
    ensures
        final(s)@ == old(s)@ + decimal(n as nat),
    decreases n,
{
    if n >= 10 {
        push_decimal(s, n / 10);
    }
    let d = (n % 10) as u8;
    let c = (d + 48) as char;
    assert(c == digit_char((n % 10) as nat));
    push_char(s, c);
}

impl State {
    /// An empty state at generation 0.
    pub fn new() -> (r: State)
        ensures
            r.wf(),
            r.generation == 0,
            r.globals@.len() == 0,
            r.scoped@.len() == 0,
            r.history@.len() == 0,
    {
        State { generation: 0, globals: Vec::new(), scoped: Vec::new(), history: Vec::new() }
    }

    /// Keys unique in the globals and in each directory, directories unique.
    pub open spec fn wf(&self) -> bool {
        &&& keys_unique(pairs_view(self.globals@))
        &&& forall|i: int|
            0 <= i < self.scoped@.len() ==> keys_unique(pairs_view(#[trigger] self.scoped@[i].1@))
        &&& forall|i: int, j: int|
            0 <= i < j < self.scoped@.len() ==> self.scoped@[i].0@ != self.scoped@[j].0@
    }

    pub open spec fn dirs(&self) -> Seq<Seq<char>> {
        self.scoped@.map_values(|d: (String, Vec<(String, String)>)| d.0@)
    }

    /// The variables of directory `dir`, `None` when it has none recorded.
    pub open spec fn dir_vars(&self, dir: Seq<char>) -> Option<Pairs> {
        match self.dir_index(dir) {
            Some(i) => Some(pairs_view(self.scoped@[i].1@)),
            None => None,
        }
    }

    pub open spec fn dir_index(&self, dir: Seq<char>) -> Option<int> {
        if exists|i: int| 0 <= i < self.scoped@.len() && self.scoped@[i].0@ == dir {
            Some(choose|i: int| 0 <= i < self.scoped@.len() && self.scoped@[i].0@ == dir)
        } else {
            None
        }
    }

    /// Directory `dir` holds, for each key of `entries`, the value of its
    /// last pair.
    pub open spec fn holds_last_values(&self, dir: Seq<char>, entries: Pairs) -> bool {
        forall|k: Seq<char>|
            #[trigger] last_value(entries, k) is Some ==> self.dir_vars(dir) is Some && lookup(
                self.dir_vars(dir)->0,
                k,
            ) == last_value(entries, k)
    }

    /// The value of `key` in effect at `pwd`: that of the most specific
    /// directory holding `pwd` if it sets the key, else the global one.
    pub open spec fn effective_value(&self, pwd: Seq<char>, key: Seq<char>) -> Option<Seq<char>> {
        match best_dir(self.dirs(), pwd) {
            Some(i) => match lookup(pairs_view(self.scoped@[i].1@), key) {
                Some(v) => Some(v),
                None => lookup(pairs_view(self.globals@), key),
            },
            None => lookup(pairs_view(self.globals@), key),
        }
    }

    /// Records a change: the generation goes up by one (saturating) and an
    /// event is appended; the history keeps its last 10000 events.
    fn bump(&mut self, key: String, scope: Scope)
        ensures
            final(self).generation == if old(self).generation == u64::MAX {
                u64::MAX
            } else {
                (old(self).generation + 1) as u64
            },
            final(self).globals == old(self).globals,
            final(self).scoped == old(self).scoped,
            ({
                let h = old(self).history@.push(
                    ChangeEvent { generation: final(self).generation, key, scope },
                );
                final(self).history@ == if h.len() > MAX_HISTORY {
                    h.subrange(h.len() - MAX_HISTORY, h.len() as int)
                } else {
                    h
                }
            }),
    {
        self.generation = self.generation.saturating_add(1);
        self.history.push(ChangeEvent { generation: self.generation, key, scope });
        if self.history.len() > MAX_HISTORY {
            let ghost h = self.history@;
            let excess = self.history.len() - MAX_HISTORY;
            let tail = self.history.split_off(excess);
            self.history = tail;
            assert(self.history@ =~= h.subrange(h.len() - MAX_HISTORY, h.len() as int));
        }
    }

    /// A directory recorded at position `i` is found there.
    proof fn lemma_dir_index_at(&self, dir: Seq<char>, i: int)
        requires
            self.wf(),
            0 <= i < self.scoped@.len(),
            self.scoped@[i].0@ == dir,
        ensures
            self.dir_index(dir) == Some(i),
    {
        let c = choose|j: int| 0 <= j < self.scoped@.len() && self.scoped@[j].0@ == dir;
        if c != i {
            if c < i {
                assert(self.scoped@[c].0@ != self.scoped@[i].0@);
            } else {
                assert(self.scoped@[i].0@ != self.scoped@[c].0@);
            }
        }
    }

    fn find_dir(&self, dir: &String) -> (r: Option<usize>)
        requires
            self.wf(),
        ensures
            match r {
                Some(i) => i < self.scoped@.len() && self.dir_index(dir@) == Some(i as int),
                None => self.dir_index(dir@) is None,
            },
    {
        let mut i: usize = 0;
        while i < self.scoped.len()
            invariant
                self.wf(),
                i <= self.scoped@.len(),
                forall|j: int| 0 <= j < i ==> self.scoped@[j].0@ != dir@,
            decreases self.scoped.len() - i,
        {
            if self.scoped[i].0 == *dir {
                proof {
                    self.lemma_dir_index_at(dir@, i as int);
                }
                return Some(i);
            }
            i = i + 1;
        }
        None
    }

    /// Sets `key` to `value` in a scope; records a change and returns `true`
    /// when the value was not already that.
    pub fn set(&mut self, scope: Scope, key: String, value: String) -> (changed: bool)
        requires
            old(self).wf(),
        ensures
            final(self).wf(),
            match scope {
                Scope::Global => {
                    &&& changed == (lookup(pairs_view(old(self).globals@), key@) != Some(value@))
                    &&& forall|k: Seq<char>|
                        #[trigger] lookup(pairs_view(final(self).globals@), k) == if k == key@ {
                            Some(value@)
                        } else {
                            lookup(pairs_view(old(self).globals@), k)
                        }
                },
                Scope::Dir(d) => {
                    &&& final(self).globals == old(self).globals
                    &&& changed == (match old(self).dir_vars(d@) {
                        Some(vs) => lookup(vs, key@) != Some(value@),
                        None => true,
                    })
                    &&& final(self).dir_vars(d@) matches Some(vs) && lookup(vs, key@) == Some(
                        value@,
                    ) && forall|k: Seq<char>|
                        k != key@ ==> #[trigger] lookup(vs, k) == match old(self).dir_vars(d@) {
                            Some(ovs) => lookup(ovs, k),
                            None => None,
                        }
                    &&& final(self).scoped@.len() >= old(self).scoped@.len()
                    &&& forall|i: int|
                        0 <= i < old(self).scoped@.len() ==> #[trigger] final(self).scoped@[i].0@
                            == old(self).scoped@[i].0@ && (old(self).scoped@[i].0@ != d@
                            ==> final(self).scoped@[i] == old(self).scoped@[i])
                },
            },
            changed ==> final(self).generation == if old(self).generation == u64::MAX {
                u64::MAX
            } else {
                (old(self).generation + 1) as u64
            },
            !changed ==> final(self).generation == old(self).generation && final(self).history
                == old(self).history,
    {
        match scope {
            Scope::Global => {
                let changed = set_pair(&mut self.globals, &key, &value);
                if changed {
                    self.bump(key, Scope::Global);
                }
                changed
            },
            Scope::Dir(path) => {
                let found = self.find_dir(&path);
                let idx = match found {
                    Some(i) => i,
                    None => {
                        let ghost old_scoped = self.scoped@;
                        self.scoped.push((path.clone(), Vec::new()));
                        proof {
                            assert(self.scoped@[old_scoped.len() as int].0@ == path@);
                            assert forall|i: int, j: int|
                                0 <= i < j < self.scoped@.len() implies self.scoped@[i].0@
                                != self.scoped@[j].0@ by {
                                assert(self.scoped@[i] == old_scoped[i]);
                                if j < old_scoped.len() {
                                    assert(self.scoped@[j] == old_scoped[j]);
                                }
                            }
                            assert(keys_unique(pairs_view(self.scoped@[old_scoped.len() as int].1@)));
                            assert forall|i: int|
                                0 <= i < self.scoped@.len() implies keys_unique(
                                pairs_view(#[trigger] self.scoped@[i].1@),
                            ) by {
                                if i < old_scoped.len() {
                                    assert(self.scoped@[i] == old_scoped[i]);
                                }
                            }
                        }
                        self.scoped.len() - 1
                    },
                };
                let ghost mid = self.scoped@;
                proof {
                    self.lemma_dir_index_at(path@, idx as int);
                }
                let (d, mut vars) = self.scoped.remove(idx);
                let changed = set_pair(&mut vars, &key, &value);
                self.scoped.insert(idx, (d, vars));
                proof {
                    assert(self.scoped@ =~= mid.update(idx as int, self.scoped@[idx as int]));
                    assert forall|i: int|
                        0 <= i < self.scoped@.len() implies keys_unique(
                        pairs_view(#[trigger] self.scoped@[i].1@),
                    ) by {
                        if i != idx {
                            assert(self.scoped@[i] == mid[i]);
                        }
                    }
                    assert forall|i: int, j: int|
                        0 <= i < j < self.scoped@.len() implies self.scoped@[i].0@
                        != self.scoped@[j].0@ by {
                        assert(self.scoped@[i].0@ == mid[i].0@);
                        assert(self.scoped@[j].0@ == mid[j].0@);
                    }
                    self.lemma_dir_index_at(path@, idx as int);
                }
                if changed {
                    self.bump(key, Scope::Dir(path));
                }
                changed
            },
        }
    }

    /// Removes `key` from a scope; records a change and returns `true` when
    /// it was set there.
    pub fn unset(&mut self, scope: Scope, key: String) -> (changed: bool)
        requires
            old(self).wf(),
        ensures
            final(self).wf(),
            match scope {
                Scope::Global => {
                    &&& changed == (lookup(pairs_view(old(self).globals@), key@) is Some)
                    &&& forall|k: Seq<char>|
                        #[trigger] lookup(pairs_view(final(self).globals@), k) == if k == key@ {
                            None
                        } else {
                            lookup(pairs_view(old(self).globals@), k)
                        }
                },
                Scope::Dir(d) => {
                    &&& final(self).globals == old(self).globals
                    &&& changed == (old(self).dir_vars(d@) matches Some(vs) && lookup(vs, key@) is Some)
                    &&& final(self).dir_vars(d@) matches Some(vs) ==> lookup(vs, key@) is None
                        && forall|k: Seq<char>|
                        k != key@ ==> #[trigger] lookup(vs, k) == match old(self).dir_vars(d@) {
                            Some(ovs) => lookup(ovs, k),
                            None => None,
                        }
                    &&& final(self).scoped@.len() == old(self).scoped@.len()
                    &&& forall|i: int|
                        0 <= i < old(self).scoped@.len() ==> #[trigger] final(self).scoped@[i].0@
                            == old(self).scoped@[i].0@ && (old(self).scoped@[i].0@ != d@
                            ==> final(self).scoped@[i] == old(self).scoped@[i])
                },
            },
            changed ==> final(self).generation == if old(self).generation == u64::MAX {
                u64::MAX
            } else {
                (old(self).generation + 1) as u64
            },
            !changed ==> final(self).generation == old(self).generation && final(self).history
                == old(self).history,
    {
        match scope {
            Scope::Global => {
                let changed = remove_pair(&mut self.globals, &key);
                if changed {
                    self.bump(key, Scope::Global);
                }
                changed
            },
            Scope::Dir(path) => {
                match self.find_dir(&path) {
                    None => false,
                    Some(idx) => {
                        let ghost mid = self.scoped@;
                        let (d, mut vars) = self.scoped.remove(idx);
                        let changed = remove_pair(&mut vars, &key);
                        self.scoped.insert(idx, (d, vars));
                        proof {
                            assert(self.scoped@ =~= mid.update(idx as int, self.scoped@[idx as int]));
                            assert forall|i: int|
                                0 <= i < self.scoped@.len() implies keys_unique(
                                pairs_view(#[trigger] self.scoped@[i].1@),
                            ) by {
                                if i != idx {
                                    assert(self.scoped@[i] == mid[i]);
                                }
                            }
                            assert forall|i: int, j: int|
                                0 <= i < j < self.scoped@.len() implies self.scoped@[i].0@
                                != self.scoped@[j].0@ by {
                                assert(self.scoped@[i].0@ == mid[i].0@);
                                assert(self.scoped@[j].0@ == mid[j].0@);
                            }
                            self.lemma_dir_index_at(path@, idx as int);
                        }
                        if changed {
                            self.bump(key, Scope::Dir(path));
                        }
                        changed
                    },
                }
            },
        }
    }

    /// Sets every pair of `entries` in a scope, in order.
    pub fn load(&mut self, scope: Scope, entries: Vec<(String, String)>)
        requires
            old(self).wf(),
        ensures
            final(self).wf(),
            scope is Global ==> forall|k: Seq<char>|
                #[trigger] lookup(pairs_view(final(self).globals@), k) == match last_value(
                    pairs_view(entries@),
                    k,
                ) {
                    Some(v) => Some(v),
                    None => lookup(pairs_view(old(self).globals@), k),
                },
            scope is Dir ==> final(self).globals == old(self).globals,
            scope matches Scope::Dir(d) ==> final(self).holds_last_values(d@, pairs_view(entries@)),
    {
        let ghost g0 = pairs_view(self.globals@);
        let ghost g_obj = self.globals;
        let ghost ev = pairs_view(entries@);
        let ghost dname: Seq<char> = match &scope {
            Scope::Dir(d) => d@,
            Scope::Global => Seq::<char>::empty(),
        };
        assert forall|q: Seq<char>| #[trigger] last_value(ev.subrange(0, 0), q) is None by {
            assert(ev.subrange(0, 0).len() == 0);
        }
        for i in 0..entries.len()
            invariant
                self.wf(),
                ev == pairs_view(entries@),
                scope is Global ==> forall|k: Seq<char>|
                    #[trigger] lookup(pairs_view(self.globals@), k) == match last_value(
                        ev.subrange(0, i as int),
                        k,
                    ) {
                        Some(v) => Some(v),
                        None => lookup(g0, k),
                    },
                scope is Dir ==> self.globals == g_obj,
                g0 == pairs_view(g_obj@),
                dname == match scope {
                    Scope::Dir(d) => d@,
                    Scope::Global => Seq::<char>::empty(),
                },
                scope is Dir ==> self.holds_last_values(dname, ev.subrange(0, i as int)),
        {
            let (k, v) = clone_pair(&entries[i]);
            let ghost kv = (k@, v@);
            let ghost gref = self.globals;
            let ghost dv_old = self.dir_vars(dname);
            let sc = match &scope {
                Scope::Global => Scope::Global,
                Scope::Dir(d) => Scope::Dir(d.clone()),
            };
            assert(match &scope {
                Scope::Dir(d) => sc matches Scope::Dir(x) && x@ == d@,
                Scope::Global => sc is Global,
            });
            let _ = self.set(sc, k, v);
            proof {
                let pre = ev.subrange(0, i as int);
                let next = ev.subrange(0, i + 1);
                assert(next.drop_last() =~= pre);
                assert(next.last() == ev[i as int]);
                assert(ev[i as int] == kv);
                if scope is Dir {
                    assert(self.globals == gref);
                }
                if scope is Dir {
                    assert forall|q: Seq<char>|
                        #[trigger] last_value(next, q) is Some implies self.dir_vars(dname) is Some
                            && lookup(self.dir_vars(dname)->0, q) == last_value(next, q) by {
                        if q != kv.0 {
                            assert(last_value(next, q) == last_value(pre, q));
                            assert(dv_old is Some && lookup(dv_old->0, q) == last_value(pre, q));
                        }
                    }
                }
            }
        }
        proof {
            assert(ev.subrange(0, entries.len() as int) =~= ev);
        }
    }

    /// The variables in effect at `pwd`: the globals, overridden by those of
    /// the most specific directory that holds `pwd`.
    pub fn effective_for_pwd(&self, pwd: &str) -> (r: Vec<(String, String)>)
        requires
            self.wf(),
        ensures
            keys_unique(pairs_view(r@)),
            forall|k: Seq<char>| #[trigger]
                lookup(pairs_view(r@), k) == self.effective_value(pwd@, k),
    {
        let pv = chars_of(pwd);
        let mut best: Option<usize> = None;
        let mut best_len: usize = 0;
        let ghost dirs = self.dirs();
        for i in 0..self.scoped.len()
            invariant
                dirs == self.dirs(),
                pv@ == pwd@,
                best matches Some(b) ==> b < i && best_len == dirs[b as int].len(),
                best_dir(dirs.subrange(0, i as int), pwd@) == match best {
                    Some(b) => Some(b as int),
                    None => None::<int>,
                },
        {
            let dv = chars_of(self.scoped[i].0.as_str());
            let ghost sub = dirs.subrange(0, i as int);
            let ghost next = dirs.subrange(0, i + 1);
            proof {
                assert(next.drop_last() =~= sub);
                assert(next.last() == dirs[i as int]);
                assert(dirs[i as int] == self.scoped@[i as int].0@);
                let b = best_dir(sub, pwd@);
                assert(best_dir(next, pwd@) == if dir_contains(dirs[i as int], pwd@) && (b matches Some(
                    j,
                ) ==> next[j].len() < dirs[i as int].len()) {
                    Some(i as int)
                } else {
                    b
                });
                if let Some(j) = b {
                    assert(next[j] == dirs[j]);
                }
            }
            if dir_contains_exec(&dv, &pv) {
                let longer = match best {
                    Some(_) => best_len < dv.len(),
                    None => true,
                };
                proof {
                    if let Some(b) = best {
                        assert(next[b as int] == dirs[b as int]);
                    }
                }
                if longer {
                    best = Some(i);
                    best_len = dv.len();
                }
            }
        }
        proof {
            assert(dirs.subrange(0, self.scoped@.len() as int) =~= dirs);
        }
        let mut out = clone_pairs(&self.globals);
        let ghost g = pairs_view(self.globals@);
        match best {
            None => {},
            Some(b) => {
                let vars = &self.scoped[b].1;
                let ghost dvw = pairs_view(vars@);
                assert(keys_unique(dvw));
                for j in 0..vars.len()
                    invariant
                        dvw == pairs_view(vars@),
                        keys_unique(dvw),
                        keys_unique(pairs_view(out@)),
                        forall|k: Seq<char>|
                            #[trigger] lookup(pairs_view(out@), k) == match lookup(
                                dvw.subrange(0, j as int),
                                k,
                            ) {
                                Some(v) => Some(v),
                                None => lookup(g, k),
                            },
                {
                    let ghost sub = dvw.subrange(0, j as int);
                    proof {
                        assert(dvw.subrange(0, j + 1) =~= sub.push(dvw[j as int]));
                        assert forall|k: Seq<char>|
                            lookup(dvw.subrange(0, j + 1), k) == if lookup(sub, k) is Some {
                                lookup(sub, k)
                            } else if dvw[j as int].0 == k {
                                Some(dvw[j as int].1)
                            } else {
                                None
                            } by {
                            lemma_lookup_push(sub, dvw[j as int], k);
                        }
                        assert(lookup(sub, dvw[j as int].0) is None) by {
                            assert forall|q: int| 0 <= q < sub.len() implies sub[q].0 != dvw[j as int].0 by {
                                assert(sub[q] == dvw[q]);
                            }
                            lemma_lookup_absent(sub, dvw[j as int].0);
                        }
                    }
                    let _ = set_pair(&mut out, &vars[j].0, &vars[j].1);
                }
                proof {
                    assert(dvw.subrange(0, vars.len() as int) =~= dvw);
                }
            },
        }
        out
    }

    /// The value of `key` in effect at `pwd`.
    pub fn get_effective(&self, key: &str, pwd: &str) -> (r: Option<String>)
        requires
            self.wf(),
        ensures
            opt_str_view(r) == self.effective_value(pwd@, key@),
    {
        let eff = self.effective_for_pwd(pwd);
        let k = string_of(&chars_of(key));
        match find_key(&eff, &k) {
            Some(i) => {
                proof {
                    lemma_lookup_found(pairs_view(eff@), i as int);
                }
                Some(eff[i].1.clone())
            },
            None => {
                proof {
                    lemma_lookup_absent(pairs_view(eff@), key@);
                }
                None
            },
        }
    }

    /// The shell script that brings a shell at `pwd`, last updated at
    /// generation `since`, up to date, and the generation it reaches.
    pub fn export_since(&self, shell: ShellKind, since: u64, pwd: &str) -> (r: (String, u64))
        requires
            self.wf(),
        ensures
            r.1 == newest_generation(self.generation, events_view(self.history@), since),
            r.0@ == export_script(self, shell, changed_keys(events_view(self.history@), since), pwd@, r.1),
    {
        let ghost hv = events_view(self.history@);
        let mut keys: Vec<String> = Vec::new();
        let mut new_gen = self.generation;
        for i in 0..self.history.len()
            invariant
                hv == events_view(self.history@),
                strs_view(keys@) == changed_keys(hv.subrange(0, i as int), since),
                new_gen == newest_generation(self.generation, hv.subrange(0, i as int), since),
        {
            let ghost sub = hv.subrange(0, i as int);
            proof {
                assert(hv.subrange(0, i + 1).drop_last() =~= sub);
                assert(hv.subrange(0, i + 1).last() == hv[i as int]);
            }
            let ev = &self.history[i];
            if ev.generation > since {
                if !contains_string(&keys, &ev.key) {
                    let ghost before = strs_view(keys@);
                    keys.push(ev.key.clone());
                    assert(strs_view(keys@) =~= before.push(ev.key@));
                }
                if ev.generation > new_gen {
                    new_gen = ev.generation;
                }
            }
        }
        proof {
            assert(hv.subrange(0, self.history@.len() as int) =~= hv);
        }
        let mut script = String::new();
        let ghost ks = strs_view(keys@);
        for i in 0..keys.len()
            invariant
                self.wf(),
                ks == strs_view(keys@),
                script@ == unset_block(self, shell, ks.subrange(0, i as int), pwd@),
        {
            proof {
                assert(ks.subrange(0, i + 1).drop_last() =~= ks.subrange(0, i as int));
                assert(ks.subrange(0, i + 1).last() == ks[i as int]);
            }
            let v = self.get_effective(keys[i].as_str(), pwd);
            if v.is_none() {
                match shell {
                    ShellKind::Fish => push_str(&mut script, "set -e "),
                    _ => push_str(&mut script, "unset -v "),
                }
                push_str(&mut script, keys[i].as_str());
                push_char(&mut script, '\n');
            }
        }
        proof {
            assert(ks.subrange(0, keys.len() as int) =~= ks);
        }
        let ghost unsets = script@;
        for i in 0..keys.len()
            invariant
                self.wf(),
                ks == strs_view(keys@),
                script@ == unsets + set_block(self, shell, ks.subrange(0, i as int), pwd@),
        {
            proof {
                assert(ks.subrange(0, i + 1).drop_last() =~= ks.subrange(0, i as int));
                assert(ks.subrange(0, i + 1).last() == ks[i as int]);
            }
            let v = self.get_effective(keys[i].as_str(), pwd);
            match v {
                Some(val) => {
                    let esc = escape_sh(val.as_str());
                    match shell {
                        ShellKind::Fish => {
                            push_str(&mut script, "set -x ");
                            push_str(&mut script, keys[i].as_str());
                            push_str(&mut script, " '");
                        },
                        _ => {
                            push_str(&mut script, "export ");
                            push_str(&mut script, keys[i].as_str());
                            push_str(&mut script, "='");
                        },
                    }
                    push_str(&mut script, esc.as_str());
                    push_str(&mut script, "'\n");
                },
                None => {},
            }
        }
        proof {
            assert(ks.subrange(0, keys.len() as int) =~= ks);
        }
        match shell {
            ShellKind::Fish => push_str(&mut script, "set -x ENVCTL_GEN "),
            _ => push_str(&mut script, "export ENVCTL_GEN="),
        }
        push_decimal(&mut script, new_gen);
        push_char(&mut script, '\n');
        (script, new_gen)
    }
}

pub open spec fn opt_str_view(o: Option<String>) -> Option<Seq<char>> {
    match o {
        Some(s) => Some(s@),
        None => None,
    }
}

pub open spec fn strs_view(v: Seq<String>) -> Seq<Seq<char>> {
    v.map_values(|s: String| s@)
}

/// The value of the last pair with key `k`.
pub open spec fn last_value(v: Pairs, k: Seq<char>) -> Option<Seq<char>>
    decreases v.len(),
{
    if v.len() == 0 {
        None
    } else if v.last().0 == k {
        Some(v.last().1)
    } else {
        last_value(v.drop_last(), k)
    }
}

pub open spec fn events_view(h: Seq<ChangeEvent>) -> Seq<(u64, Seq<char>)> {
    h.map_values(|e: ChangeEvent| (e.generation, e.key@))
}

/// The keys changed after generation `since`, each once, in the order of
/// their first change.
pub open spec fn changed_keys(h: Seq<(u64, Seq<char>)>, since: u64) -> Seq<Seq<char>>
    decreases h.len(),
{
    if h.len() == 0 {
        Seq::empty()
    } else {
        let prev = changed_keys(h.drop_last(), since);
        if h.last().0 > since && !prev.contains(h.last().1) {
            prev.push(h.last().1)
        } else {
            prev
        }
    }
}

/// The current generation, or a newer one found among the events after
/// `since`.
pub open spec fn newest_generation(generation: u64, h: Seq<(u64, Seq<char>)>, since: u64) -> u64
    decreases h.len(),
{
    if h.len() == 0 {
        generation
    } else {
        let prev = newest_generation(generation, h.drop_last(), since);
        if h.last().0 > since && h.last().0 > prev {
            h.last().0
        } else {
            prev
        }
    }
}

/// `unset` lines for the changed keys no longer in effect.
pub open spec fn unset_block(st: &State, shell: ShellKind, keys: Seq<Seq<char>>, pwd: Seq<char>) -> Seq<char>
    decreases keys.len(),
{
    if keys.len() == 0 {
        Seq::empty()
    } else {
        let prev = unset_block(st, shell, keys.drop_last(), pwd);
        let k = keys.last();
        if st.effective_value(pwd, k) is None {
            prev + (if shell == ShellKind::Fish {
                "set -e "@
            } else {
                "unset -v "@
            }) + k + seq!['\n']
        } else {
            prev
        }
    }
}

/// `export` lines for the changed keys in effect, values single-quoted.
pub open spec fn set_block(st: &State, shell: ShellKind, keys: Seq<Seq<char>>, pwd: Seq<char>) -> Seq<char>
    decreases keys.len(),
{
    if keys.len() == 0 {
        Seq::empty()
    } else {
        let prev = set_block(st, shell, keys.drop_last(), pwd);
        let k = keys.last();
        match st.effective_value(pwd, k) {
            Some(v) => prev + (if shell == ShellKind::Fish {
                "set -x "@ + k + " '"@
            } else {
                "export "@ + k + "='"@
            }) + escape_sh_spec(v) + "'\n"@,
            None => prev,
        }
    }
}

/// The whole script: unsets, then exports, then the new generation.
pub open spec fn export_script(
    st: &State,
    shell: ShellKind,
    keys: Seq<Seq<char>>,
    pwd: Seq<char>,
    new_gen: u64,
) -> Seq<char> {
    unset_block(st, shell, keys, pwd) + set_block(st, shell, keys, pwd) + (if shell
        == ShellKind::Fish {
        "set -x ENVCTL_GEN "@
    } else {
        "export ENVCTL_GEN="@
    }) + decimal(new_gen as nat) + seq!['\n']
}

fn contains_string(v: &Vec<String>, s: &String) -> (r: bool)
    ensures
        r == strs_view(v@).contains(s@),
{
    let mut i: usize = 0;
    while i < v.len()
        invariant
            i <= v.len(),
            forall|j: int| 0 <= j < i ==> v@[j]@ != s@,
        decreases v.len() - i,
    {
        if v[i] == *s {
            assert(strs_view(v@)[i as int] == s@);
            return true;
        }
        i = i + 1;
    }
    assert(!strs_view(v@).contains(s@)) by {
        if strs_view(v@).contains(s@) {
            let j = choose|j: int| 0 <= j < strs_view(v@).len() && strs_view(v@)[j] == s@;
            assert(v@[j]@ == s@);
        }
    }
    false
}

fn dir_contains_exec(dir: &Vec<char>, pwd: &Vec<char>) -> (r: bool)
    ensures
        r == dir_contains(dir@, pwd@),
{
    if !crate::text::matches_at(pwd, dir, 0) {
        return false;
    }
    proof {
        assert(pwd@.subrange(0, dir@.len() as int) == dir@);
    }
    pwd.len() == dir.len() || (dir.len() > 0 && dir[dir.len() - 1] == '/') || pwd[dir.len()] == '/'
}

/// The pair that one line of a dotenv file gives: the text is trimmed;
/// empty lines and `#` comments give none; otherwise the key is what comes
/// before the first `=` (it must not be empty) and the value what follows.
pub open spec fn dotenv_line(line: Seq<char>) -> Option<(Seq<char>, Seq<char>)> {
    let t = trim_spec(line);
    if t.len() == 0 || t[0] == '#' {
        None
    } else {
        match first_index(t, '=') {
            Some(i) => if i > 0 {
                Some((t.subrange(0, i as int), t.subrange(i as int + 1, t.len() as int)))
            } else {
                None
            },
            None => None,
        }
    }
}

/// The pairs of a dotenv text, line by line.
pub open spec fn dotenv_spec(lines: Seq<Seq<char>>) -> Pairs
    decreases lines.len(),
{
    if lines.len() == 0 {
        Seq::empty()
    } else {
        let prev = dotenv_spec(lines.drop_last());
        match dotenv_line(lines.last()) {
            Some(p) => prev.push(p),
            None => prev,
        }
    }
}

/// Reads `KEY=value` lines.
pub fn parse_dotenv(text: &str) -> (r: Vec<(String, String)>)
    ensures
        pairs_view(r@) == dotenv_spec(split_spec(text@, '\n')),
{
    let v = chars_of(text);
    let lines = split_chars(&v, '\n');
    let ghost ls = split_spec(text@, '\n');
    let mut out: Vec<(String, String)> = Vec::new();
    for i in 0..lines.len()
        invariant
            lines@.len() == ls.len(),
            forall|k: int| 0 <= k < lines@.len() ==> #[trigger] lines@[k]@ == ls[k],
            pairs_view(out@) == dotenv_spec(ls.subrange(0, i as int)),
    {
        proof {
            assert(ls.subrange(0, i + 1).drop_last() =~= ls.subrange(0, i as int));
            assert(ls.subrange(0, i + 1).last() == ls[i as int]);
        }
        let t = trim_chars(&lines[i]);
        if t.len() > 0 && t[0] != '#' {
            match find_char(&t, '=') {
                Some(eq) => {
                    if eq > 0 {
                        let k = slice_of(&t, 0, eq);
                        let val = slice_of(&t, eq + 1, t.len());
                        let p = (string_of(&k), string_of(&val));
                        let ghost before = pairs_view(out@);
                        out.push(p);
                        assert(pairs_view(out@) =~= before.push((k@, val@)));
                    }
                },
                None => {},
            }
        }
    }
    proof {
        assert(ls.subrange(0, lines.len() as int) =~= ls);
    }
    out
}

/// The daemon's socket: `cmux-envd/envd.sock` under the runtime directory,
/// which is `$XDG_RUNTIME_DIR` when set and not empty, else `/tmp`.
pub open spec fn socket_path_spec(xdg_runtime_dir: Option<Seq<char>>) -> Seq<char> {
    let base = match xdg_runtime_dir {
        Some(d) => if d.len() > 0 {
            d
        } else {
            "/tmp"@
        },
        None => "/tmp"@,
    };
    if base.len() > 0 && base.last() == '/' {
        base + "cmux-envd/envd.sock"@
    } else {
        base + "/cmux-envd/envd.sock"@
    }
}

/// The path of the daemon's socket, given the value of `XDG_RUNTIME_DIR`.
pub fn socket_path(xdg_runtime_dir: Option<&str>) -> (r: String)
    ensures
        r@ == socket_path_spec(
            match xdg_runtime_dir {
                Some(d) => Some(d@),
                None => None,
            },
        ),
{
    let base = match xdg_runtime_dir {
        Some(d) => {
            let dv = chars_of(d);
            if dv.len() > 0 {
                dv
            } else {
                chars_of("/tmp")
            }
        },
        None => chars_of("/tmp"),
    };
    let mut s = string_of(&base);
    if base.len() > 0 && base[base.len() - 1] == '/' {
        push_str(&mut s, "cmux-envd/envd.sock");
    } else {
        push_str(&mut s, "/cmux-envd/envd.sock");
    }
    s
}

} // verus!
