//! The diff engine's own logic: the binary heuristic, the parsers of
//! `git diff --name-status -z` and `git diff --numstat -z`, the assembly of
//! one `DiffEntry` per changed file, and the tree-only classification used
//! when the command line reports nothing.
use vstd::prelude::*;
use vstd::utf8::{decode_utf8, valid_utf8};

use crate::text::{
    all_digits, capped_decimal, chars_eq_str, chars_of, is_all_digits, lemma_split_nonempty,
    split_chars, split_spec, string_of,
};

verus! {

/// The default bound on the text captured per entry: 950 KiB.
pub const DEFAULT_MAX_BYTES: usize = 972800;

/// Blob bytes that contain a NUL byte or are not valid UTF-8.
pub open spec fn is_binary_spec(data: Seq<u8>) -> bool {
    data.contains(0u8) || !valid_utf8(data)
}

/// Relies on `std::str::from_utf8`: it succeeds exactly on valid UTF-8.
#[verifier::external_body]
fn utf8_is_valid(data: &[u8]) -> (r: bool)
    ensures
        r == valid_utf8(data@),
{
    std::str::from_utf8(data).is_ok()
}

/// Relies on `String::from_utf8_lossy`: valid UTF-8 is decoded unchanged.
#[verifier::external_body]
fn utf8_lossy(data: &[u8]) -> (r: String)
    ensures
        valid_utf8(data@) ==> r@ == decode_utf8(data@),
{
    String::from_utf8_lossy(data).into_owned()
}

/// Whether blob bytes are binary: any NUL byte, or not valid UTF-8.
pub fn is_binary(data: &[u8]) -> (r: bool)
    ensures
        r == is_binary_spec(data@),
{
    let mut i: usize = 0;
    while i < data.len()
        invariant
            i <= data.len(),
            forall|j: int| 0 <= j < i ==> data@[j] != 0u8,
        decreases data.len() - i,
    {
        if data[i] == 0 {
            assert(data@[i as int] == 0u8);
            return true;
        }
        i = i + 1;
    }
    assert(!data@.contains(0u8));
    !utf8_is_valid(data)
}

/// The kind of change git reports for one file.
#[derive(Clone, Copy, Debug, PartialEq, Eq, Structural)]
pub enum ChangeKind {
    Added,
    Modified,
    Deleted,
    Renamed,
}

impl ChangeKind {
    /// The status word of a `DiffEntry`.
    pub fn as_str(&self) -> (r: &'static str)
        ensures
            r@ == status_word(*self),
    {
        match self {
            ChangeKind::Added => "added",
            ChangeKind::Modified => "modified",
            ChangeKind::Deleted => "deleted",
            ChangeKind::Renamed => "renamed",
        }
    }
}

pub open spec fn status_word(k: ChangeKind) -> Seq<char> {
    match k {
        ChangeKind::Added => "added"@,
        ChangeKind::Modified => "modified"@,
        ChangeKind::Deleted => "deleted"@,
        ChangeKind::Renamed => "renamed"@,
    }
}

/// One record of `git diff --name-status -z`.
#[derive(Clone, Debug, PartialEq, Eq)]
pub struct FileChange {
    pub kind: ChangeKind,
    /// The path after the change (the new path of a rename).
    pub path: String,
    /// The path before a rename; `None` for every other kind.
    pub old_path: Option<String>,
}

pub struct ChangeView {
    pub kind: ChangeKind,
    pub path: Seq<char>,
    pub old_path: Option<Seq<char>>,
}

pub open spec fn opt_view(o: Option<String>) -> Option<Seq<char>> {
    match o {
        Some(s) => Some(s@),
        None => None,
    }
}

impl View for FileChange {
    type V = ChangeView;

    open spec fn view(&self) -> ChangeView {
        ChangeView { kind: self.kind, path: self.path@, old_path: opt_view(self.old_path) }
    }
}

/// The kind that a one-path status code stands for: `A`, `M`, `T` (a type
/// change) or `D`; `None` for codes this engine does not report.
pub open spec fn single_kind(code: Seq<char>) -> Option<ChangeKind> {
    if code == "A"@ {
        Some(ChangeKind::Added)
    } else if code == "M"@ || code == "T"@ {
        Some(ChangeKind::Modified)
    } else if code == "D"@ {
        Some(ChangeKind::Deleted)
    } else {
        None
    }
}

/// A two-path code: `R<score>` (rename) or `C<score>` (copy).
pub open spec fn is_pair_code(code: Seq<char>) -> bool {
    code.len() > 0 && (code[0] == 'R' || code[0] == 'C')
}

/// The records of `git diff --name-status -z`, given its NUL-separated
/// fields: a status code followed by one path, or by two for a rename or a
/// copy. A copy is reported as the addition of its new path; records with
/// other codes are passed over.
pub open spec fn name_status_spec(toks: Seq<Seq<char>>) -> Seq<ChangeView>
    decreases toks.len(),
{
    if toks.len() < 2 {
        Seq::empty()
    } else if is_pair_code(toks[0]) {
        if toks.len() < 3 {
            Seq::empty()
        } else if toks[0][0] == 'R' {
            seq![ChangeView { kind: ChangeKind::Renamed, path: toks[2], old_path: Some(toks[1]) }]
                + name_status_spec(toks.skip(3))
        } else {
            seq![ChangeView { kind: ChangeKind::Added, path: toks[2], old_path: None }]
                + name_status_spec(toks.skip(3))
        }
    } else {
        match single_kind(toks[0]) {
            Some(k) => seq![ChangeView { kind: k, path: toks[1], old_path: None }]
                + name_status_spec(toks.skip(2)),
            None => name_status_spec(toks.skip(2)),
        }
    }
}

pub open spec fn changes_view(v: Seq<FileChange>) -> Seq<ChangeView> {
    v.map_values(|c: FileChange| c@)
}

fn single_kind_of(code: &Vec<char>) -> (r: Option<ChangeKind>)
    ensures
        r == single_kind(code@),
{
    if chars_eq_str(code, "A") {
        Some(ChangeKind::Added)
    } else if chars_eq_str(code, "M") || chars_eq_str(code, "T") {
        Some(ChangeKind::Modified)
    } else if chars_eq_str(code, "D") {
        Some(ChangeKind::Deleted)
    } else {
        None
    }
}

/// Parses the output of `git diff --name-status -z`.
pub fn parse_name_status(out: &str) -> (r: Vec<FileChange>)
    ensures
        changes_view(r@) == name_status_spec(split_spec(out@, '\0')),
{
    let v = chars_of(out);
    let toks = split_chars(&v, '\0');
    let ghost ts = split_spec(out@, '\0');
    let mut res: Vec<FileChange> = Vec::new();
    let mut i: usize = 0;
    proof {
        assert(ts.skip(0) =~= ts);
        assert(changes_view(res@) + name_status_spec(ts) =~= name_status_spec(ts));
    }
    loop
        invariant
            toks@.len() == ts.len(),
            forall|k: int| 0 <= k < toks@.len() ==> #[trigger] toks@[k]@ == ts[k],
            i <= toks.len(),
            changes_view(res@) + name_status_spec(ts.skip(i as int)) == name_status_spec(ts),
        ensures
            changes_view(res@) == name_status_spec(ts),
        decreases toks.len() - i,
    {
        let ghost rest = ts.skip(i as int);
        if toks.len() - i < 2 {
            proof {
                assert(name_status_spec(rest) =~= Seq::empty());
                assert(changes_view(res@) + Seq::<ChangeView>::empty() =~= changes_view(res@));
            }
            break;
        }
        assert(rest[0] == ts[i as int] && rest[1] == ts[i + 1]);
        let code = &toks[i];
        let pair = code.len() > 0 && (code[0] == 'R' || code[0] == 'C');
        assert(pair == is_pair_code(rest[0]));
        if pair {
            if toks.len() - i < 3 {
                proof {
                    assert(name_status_spec(rest) =~= Seq::empty());
                    assert(changes_view(res@) + Seq::<ChangeView>::empty() =~= changes_view(res@));
                }
                break;
            }
            assert(rest[2] == ts[i + 2]);
            assert(rest.skip(3) =~= ts.skip(i + 3));
            let kind = if code[0] == 'R' {
                ChangeKind::Renamed
            } else {
                ChangeKind::Added
            };
            let old_path = if code[0] == 'R' {
                Some(string_of(&toks[i + 1]))
            } else {
                None
            };
            let c = FileChange { kind, path: string_of(&toks[i + 2]), old_path };
            let ghost before = changes_view(res@);
            res.push(c);
            assert(changes_view(res@) =~= before.push(c@));
            assert(before.push(c@) + name_status_spec(ts.skip(i + 3)) =~= before + (seq![c@]
                + name_status_spec(ts.skip(i + 3))));
            i = i + 3;
        } else {
            assert(rest.skip(2) =~= ts.skip(i + 2));
            match single_kind_of(code) {
                Some(k) => {
                    let c = FileChange { kind: k, path: string_of(&toks[i + 1]), old_path: None };
                    let ghost before = changes_view(res@);
                    res.push(c);
                    assert(changes_view(res@) =~= before.push(c@));
                    assert(before.push(c@) + name_status_spec(ts.skip(i + 2)) =~= before + (
                    seq![c@] + name_status_spec(ts.skip(i + 2))));
                },
                None => {},
            }
            i = i + 2;
        }
    }
    res
}

/// One record of `git diff --numstat -z`.
#[derive(Clone, Debug, PartialEq, Eq)]
pub struct NumstatRow {
    /// Lines added; 0 for a binary file.
    pub additions: i32,
    /// Lines deleted; 0 for a binary file.
    pub deletions: i32,
    /// Git printed `-` in either column.
    pub binary: bool,
    pub path: String,
    pub old_path: Option<String>,
}

pub struct RowView {
    pub additions: i32,
    pub deletions: i32,
    pub binary: bool,
    pub path: Seq<char>,
    pub old_path: Option<Seq<char>>,
}

impl View for NumstatRow {
    type V = RowView;

    open spec fn view(&self) -> RowView {
        RowView {
            additions: self.additions,
            deletions: self.deletions,
            binary: self.binary,
            path: self.path@,
            old_path: opt_view(self.old_path),
        }
    }
}

pub open spec fn rows_view(v: Seq<NumstatRow>) -> Seq<RowView> {
    v.map_values(|r: NumstatRow| r@)
}

/// A count column: digits, read with a ceiling of `i32::MAX`.
pub open spec fn is_count(s: Seq<char>) -> bool {
    s.len() > 0 && all_digits(s)
}

pub open spec fn count_value(s: Seq<char>) -> i32 {
    if crate::text::decimal_value(s) < 0x7fff_ffff {
        crate::text::decimal_value(s) as i32
    } else {
        0x7fff_ffff
    }
}

/// The two count columns are each a count or `-`.
pub open spec fn counts_ok(cols: Seq<Seq<char>>) -> bool {
    &&& cols.len() == 3
    &&& (is_count(cols[0]) || cols[0] == "-"@)
    &&& (is_count(cols[1]) || cols[1] == "-"@)
}

pub open spec fn row_of(cols: Seq<Seq<char>>, path: Seq<char>, old_path: Option<Seq<char>>) -> RowView {
    let binary = cols[0] == "-"@ || cols[1] == "-"@;
    RowView {
        additions: if binary { 0 } else { count_value(cols[0]) },
        deletions: if binary { 0 } else { count_value(cols[1]) },
        binary,
        path,
        old_path,
    }
}

/// The records of `git diff --numstat -z`, given its NUL-separated fields:
/// `<added>\t<deleted>\t<path>`, or `<added>\t<deleted>\t` followed by the
/// old and the new path for a rename. Malformed fields (a path holding a
/// tab among them) are passed over.
pub open spec fn numstat_spec(toks: Seq<Seq<char>>) -> Seq<RowView>
    decreases toks.len(),
{
    if toks.len() == 0 {
        Seq::empty()
    } else {
        let cols = split_spec(toks[0], '\t');
        if !counts_ok(cols) {
            numstat_spec(toks.skip(1))
        } else if cols[2].len() > 0 {
            seq![row_of(cols, cols[2], None)] + numstat_spec(toks.skip(1))
        } else if toks.len() >= 3 {
            seq![row_of(cols, toks[2], Some(toks[1]))] + numstat_spec(toks.skip(3))
        } else {
            Seq::empty()
        }
    }
}

fn count_of(col: &Vec<char>) -> (r: i32)
    requires
        is_count(col@),
    ensures
        r == count_value(col@),
{
    capped_decimal(col, 0x7fff_ffff) as i32
}

fn is_count_col(col: &Vec<char>) -> (r: bool)
    ensures
        r == is_count(col@),
{
    col.len() > 0 && is_all_digits(col)
}

/// Parses the output of `git diff --numstat -z`.
pub fn parse_numstat(out: &str) -> (r: Vec<NumstatRow>)
    ensures
        rows_view(r@) == numstat_spec(split_spec(out@, '\0')),
{
    let v = chars_of(out);
    let toks = split_chars(&v, '\0');
    let ghost ts = split_spec(out@, '\0');
    let mut res: Vec<NumstatRow> = Vec::new();
    let mut i: usize = 0;
    proof {
        assert(ts.skip(0) =~= ts);
        assert(rows_view(res@) + numstat_spec(ts) =~= numstat_spec(ts));
    }
    loop
        invariant
            toks@.len() == ts.len(),
            forall|k: int| 0 <= k < toks@.len() ==> #[trigger] toks@[k]@ == ts[k],
            i <= toks.len(),
            rows_view(res@) + numstat_spec(ts.skip(i as int)) == numstat_spec(ts),
        ensures
            rows_view(res@) == numstat_spec(ts),
        decreases toks.len() - i,
    {
        let ghost rest = ts.skip(i as int);
        if i == toks.len() {
            proof {
                assert(numstat_spec(rest) =~= Seq::empty());
                assert(rows_view(res@) + Seq::<RowView>::empty() =~= rows_view(res@));
            }
            break;
        }
        assert(rest[0] == ts[i as int]);
        assert(rest.skip(1) =~= ts.skip(i + 1));
        let cols = split_chars(&toks[i], '\t');
        let ghost cs = split_spec(ts[i as int], '\t');
        let ok = cols.len() == 3 && (is_count_col(&cols[0]) || chars_eq_str(&cols[0], "-")) && (
        is_count_col(&cols[1]) || chars_eq_str(&cols[1], "-"));
        assert(cols.len() == 3 ==> cols@[0]@ == cs[0] && cols@[1]@ == cs[1] && cols@[2]@ == cs[2]);
        assert(ok == counts_ok(cs));
        if !ok {
            i = i + 1;
        } else {
            let binary = chars_eq_str(&cols[0], "-") || chars_eq_str(&cols[1], "-");
            let additions = if binary {
                0
            } else {
                count_of(&cols[0])
            };
            let deletions = if binary {
                0
            } else {
                count_of(&cols[1])
            };
            if cols[2].len() > 0 {
                let row = NumstatRow {
                    additions,
                    deletions,
                    binary,
                    path: string_of(&cols[2]),
                    old_path: None,
                };
                assert(row@ == row_of(cs, cs[2], None));
                let ghost before = rows_view(res@);
                res.push(row);
                assert(rows_view(res@) =~= before.push(row@));
                assert(before.push(row@) + numstat_spec(ts.skip(i + 1)) =~= before + (seq![row@]
                    + numstat_spec(ts.skip(i + 1))));
                i = i + 1;
            } else if toks.len() - i >= 3 {
                assert(rest[1] == ts[i + 1] && rest[2] == ts[i + 2]);
                assert(rest.skip(3) =~= ts.skip(i + 3));
                let row = NumstatRow {
                    additions,
                    deletions,
                    binary,
                    path: string_of(&toks[i + 2]),
                    old_path: Some(string_of(&toks[i + 1])),
                };
                assert(row@ == row_of(cs, ts[i + 2], Some(ts[i + 1])));
                let ghost before = rows_view(res@);
                res.push(row);
                assert(rows_view(res@) =~= before.push(row@));
                assert(before.push(row@) + numstat_spec(ts.skip(i + 3)) =~= before + (seq![row@]
                    + numstat_spec(ts.skip(i + 3))));
                i = i + 3;
            } else {
                proof {
                    assert(numstat_spec(rest) =~= Seq::empty());
                    assert(rows_view(res@) + Seq::<RowView>::empty() =~= rows_view(res@));
                }
                break;
            }
        }
    }
    res
}

/// A file's change as the engine reports it.
#[derive(Clone, Debug, PartialEq, Eq)]
pub struct DiffEntry {
    /// The path after the change (the new path of a rename).
    pub file_path: String,
    /// The path before the change, for renames only.
    pub old_path: Option<String>,
    /// One of `added`, `modified`, `deleted`, `renamed`.
    pub status: String,
    pub additions: i32,
    pub deletions: i32,
    pub is_binary: bool,
    pub old_size: Option<i32>,
    pub new_size: Option<i32>,
    pub old_content: Option<String>,
    pub new_content: Option<String>,
    /// The text was left out because both sides together exceed the bound.
    pub content_omitted: bool,
}

pub struct EntryView {
    pub file_path: Seq<char>,
    pub old_path: Option<Seq<char>>,
    pub status: Seq<char>,
    pub additions: i32,
    pub deletions: i32,
    pub is_binary: bool,
    pub old_size: Option<i32>,
    pub new_size: Option<i32>,
    pub old_content: Option<Seq<char>>,
    pub new_content: Option<Seq<char>>,
    pub content_omitted: bool,
}

impl View for DiffEntry {
    type V = EntryView;

    open spec fn view(&self) -> EntryView {
        EntryView {
            file_path: self.file_path@,
            old_path: opt_view(self.old_path),
            status: self.status@,
            additions: self.additions,
            deletions: self.deletions,
            is_binary: self.is_binary,
            old_size: self.old_size,
            new_size: self.new_size,
            old_content: opt_view(self.old_content),
            new_content: opt_view(self.new_content),
            content_omitted: self.content_omitted,
        }
    }
}

pub open spec fn entries_view(v: Seq<DiffEntry>) -> Seq<EntryView> {
    v.map_values(|e: DiffEntry| e@)
}

/// The blob contents read for one change: `None` where the object could not
/// be read as a blob (a submodule, say).
#[derive(Clone, Debug, PartialEq, Eq)]
pub struct BlobPair {
    pub old: Option<Vec<u8>>,
    pub new: Option<Vec<u8>>,
}

pub open spec fn blob_view(b: Option<Vec<u8>>) -> Option<Seq<u8>> {
    match b {
        Some(v) => Some(v@),
        None => None,
    }
}

/// The bytes of one side: empty where the side does not exist (the old side
/// of an addition) or could not be read.
pub open spec fn side_bytes(present: bool, blob: Option<Seq<u8>>) -> Seq<u8> {
    if present {
        match blob {
            Some(b) => b,
            None => Seq::empty(),
        }
    } else {
        Seq::empty()
    }
}

pub open spec fn clamp_size(n: int) -> i32 {
    if n > 0x7fff_ffff {
        0x7fff_ffff
    } else {
        n as i32
    }
}

/// The numstat row that git printed for a change: the first with the same
/// path and old path.
pub open spec fn matching_row(rows: Seq<RowView>, c: ChangeView) -> Option<RowView>
    decreases rows.len(),
{
    if rows.len() == 0 {
        None
    } else if rows[0].path == c.path && rows[0].old_path == c.old_path {
        Some(rows[0])
    } else {
        matching_row(rows.skip(1), c)
    }
}

/// Whether a change's entry is binary: git printed `-`, a side that exists
/// could not be read, or a side's bytes are binary.
pub open spec fn entry_binary(
    c: ChangeView,
    row: Option<RowView>,
    old_blob: Option<Seq<u8>>,
    new_blob: Option<Seq<u8>>,
) -> bool {
    let has_old = c.kind != ChangeKind::Added;
    let has_new = c.kind != ChangeKind::Deleted;
    ||| (row matches Some(r) && r.binary)
    ||| (has_old && old_blob is None)
    ||| (has_new && new_blob is None)
    ||| is_binary_spec(side_bytes(has_old, old_blob))
    ||| is_binary_spec(side_bytes(has_new, new_blob))
}

/// The entry for one change. Counts come from git's numstat row and are 0
/// for binaries; sizes are the byte lengths of both sides (0 for a side
/// that does not exist); the text of both sides is kept when asked for,
/// when the entry is not binary and when both sides together fit in
/// `max_bytes`, and `content_omitted` tells that a text entry was too large.
pub open spec fn entry_spec(
    c: ChangeView,
    row: Option<RowView>,
    old_blob: Option<Seq<u8>>,
    new_blob: Option<Seq<u8>>,
    with_contents: bool,
    max_bytes: nat,
) -> EntryView {
    let ob = side_bytes(c.kind != ChangeKind::Added, old_blob);
    let nb = side_bytes(c.kind != ChangeKind::Deleted, new_blob);
    let binary = entry_binary(c, row, old_blob, new_blob);
    let total = ob.len() + nb.len();
    let keep = with_contents && !binary && total <= max_bytes;
    EntryView {
        file_path: c.path,
        old_path: if c.kind == ChangeKind::Renamed {
            c.old_path
        } else {
            None
        },
        status: status_word(c.kind),
        additions: if binary {
            0
        } else {
            match row {
                Some(r) => r.additions,
                None => 0,
            }
        },
        deletions: if binary {
            0
        } else {
            match row {
                Some(r) => r.deletions,
                None => 0,
            }
        },
        is_binary: binary,
        old_size: Some(clamp_size(ob.len() as int)),
        new_size: Some(clamp_size(nb.len() as int)),
        old_content: if keep {
            Some(decode_utf8(ob))
        } else {
            None
        },
        new_content: if keep {
            Some(decode_utf8(nb))
        } else {
            None
        },
        content_omitted: !binary && total > max_bytes,
    }
}

fn size_of(n: usize) -> (r: i32)
    ensures
        r == clamp_size(n as int),
{
    if n > 0x7fff_ffff {
        0x7fff_ffff
    } else {
        n as i32
    }
}

fn opt_string_eq(a: &Option<String>, b: &Option<String>) -> (r: bool)
    ensures
        r == (opt_view(*a) == opt_view(*b)),
{
    match a {
        Some(x) => match b {
            Some(y) => *x == *y,
            None => false,
        },
        None => b.is_none(),
    }
}

fn clone_opt_string(a: &Option<String>) -> (r: Option<String>)
    ensures
        opt_view(r) == opt_view(*a),
{
    match a {
        Some(x) => Some(x.clone()),
        None => None,
    }
}

/// Finds git's numstat row for a change.
pub fn find_row(rows: &Vec<NumstatRow>, c: &FileChange) -> (r: Option<usize>)
    ensures
        match r {
            Some(i) => i < rows.len() && matching_row(rows_view(rows@), c@) == Some(rows@[i as int]@),
            None => matching_row(rows_view(rows@), c@) is None,
        },
{
    let ghost rv = rows_view(rows@);
    let mut i: usize = 0;
    proof {
        assert(rv.skip(0) =~= rv);
    }
    while i < rows.len()
        invariant
            i <= rows.len(),
            rv == rows_view(rows@),
            matching_row(rv.skip(i as int), c@) == matching_row(rv, c@),
        decreases rows.len() - i,
    {
        let ghost rest = rv.skip(i as int);
        assert(rest[0] == rows@[i as int]@);
        if rows[i].path == c.path && opt_string_eq(&rows[i].old_path, &c.old_path) {
            return Some(i);
        }
        assert(rest.skip(1) =~= rv.skip(i + 1));
        i = i + 1;
    }
    None
}

/// Builds the entry for one change from its numstat row (if git printed one)
/// and the blobs read for it.
pub fn build_entry(
    c: &FileChange,
    row: Option<&NumstatRow>,
    blobs: &BlobPair,
    with_contents: bool,
    max_bytes: usize,
) -> (r: DiffEntry)
    ensures
        r@ == entry_spec(
            c@,
            match row {
                Some(x) => Some(x@),
                None => None,
            },
            blob_view(blobs.old),
            blob_view(blobs.new),
            with_contents,
            max_bytes as nat,
        ),
{
    let has_old = c.kind != ChangeKind::Added;
    let has_new = c.kind != ChangeKind::Deleted;
    let empty: Vec<u8> = Vec::new();
    let (ob, old_missing) = if has_old {
        match &blobs.old {
            Some(b) => (b, false),
            None => (&empty, true),
        }
    } else {
        (&empty, false)
    };
    let (nb, new_missing) = if has_new {
        match &blobs.new {
            Some(b) => (b, false),
            None => (&empty, true),
        }
    } else {
        (&empty, false)
    };
    let row_binary = match row {
        Some(x) => x.binary,
        None => false,
    };
    let binary = row_binary || old_missing || new_missing || is_binary(ob.as_slice()) || is_binary(
        nb.as_slice(),
    );
    let too_large = ob.len() > max_bytes || nb.len() > max_bytes - ob.len();
    let keep = with_contents && !binary && !too_large;
    let (additions, deletions) = if binary {
        (0, 0)
    } else {
        match row {
            Some(x) => (x.additions, x.deletions),
            None => (0, 0),
        }
    };
    let old_content = if keep {
        Some(utf8_lossy(ob.as_slice()))
    } else {
        None
    };
    let new_content = if keep {
        Some(utf8_lossy(nb.as_slice()))
    } else {
        None
    };
    let old_path = if c.kind == ChangeKind::Renamed {
        clone_opt_string(&c.old_path)
    } else {
        None
    };
    DiffEntry {
        file_path: c.path.clone(),
        old_path,
        status: string_of(&chars_of(c.kind.as_str())),
        additions,
        deletions,
        is_binary: binary,
        old_size: Some(size_of(ob.len())),
        new_size: Some(size_of(nb.len())),
        old_content,
        new_content,
        content_omitted: !binary && too_large,
    }
}

/// The entries for the changes git reported, in the same order.
pub open spec fn assembled(
    cs: Seq<ChangeView>,
    rs: Seq<RowView>,
    bs: Seq<BlobPair>,
    with_contents: bool,
    max_bytes: nat,
) -> Seq<EntryView> {
    Seq::new(
        cs.len(),
        |i: int|
            entry_spec(
                cs[i],
                matching_row(rs, cs[i]),
                blob_view(bs[i].old),
                blob_view(bs[i].new),
                with_contents,
                max_bytes,
            ),
    )
}

/// One entry per change git reported: its numstat row gives the counts,
/// `blobs[i]` holds what was read of the two sides of `changes[i]`.
pub fn assemble_entries(
    changes: &Vec<FileChange>,
    rows: &Vec<NumstatRow>,
    blobs: &Vec<BlobPair>,
    with_contents: bool,
    max_bytes: usize,
) -> (r: Vec<DiffEntry>)
    requires
        blobs.len() == changes.len(),
    ensures
        entries_view(r@) == assembled(
            changes_view(changes@),
            rows_view(rows@),
            blobs@,
            with_contents,
            max_bytes as nat,
        ),
{
    let ghost target = assembled(
        changes_view(changes@),
        rows_view(rows@),
        blobs@,
        with_contents,
        max_bytes as nat,
    );
    let mut out: Vec<DiffEntry> = Vec::new();
    for i in 0..changes.len()
        invariant
            blobs.len() == changes.len(),
            target == assembled(
                changes_view(changes@),
                rows_view(rows@),
                blobs@,
                with_contents,
                max_bytes as nat,
            ),
            entries_view(out@) =~= target.subrange(0, i as int),
    {
        let row = match find_row(rows, &changes[i]) {
            Some(k) => Some(&rows[k]),
            None => None,
        };
        let e = build_entry(&changes[i], row, &blobs[i], with_contents, max_bytes);
        out.push(e);
        assert(target.subrange(0, i + 1) =~= target.subrange(0, i as int).push(target[i as int]));
    }
    assert(target.subrange(0, changes.len() as int) =~= target);
    out
}

/// The sum of the additions of entries.
pub open spec fn total_additions(es: Seq<EntryView>) -> int
    decreases es.len(),
{
    if es.len() == 0 {
        0
    } else {
        total_additions(es.drop_last()) + es.last().additions
    }
}

/// The sum of the deletions of entries.
pub open spec fn total_deletions(es: Seq<EntryView>) -> int
    decreases es.len(),
{
    if es.len() == 0 {
        0
    } else {
        total_deletions(es.drop_last()) + es.last().deletions
    }
}

/// The sum of numstat's added-lines column, `-` counting as 0.
pub open spec fn numstat_additions(rs: Seq<RowView>) -> int
    decreases rs.len(),
{
    if rs.len() == 0 {
        0
    } else {
        numstat_additions(rs.drop_last()) + rs.last().additions
    }
}

/// The sum of numstat's deleted-lines column, `-` counting as 0.
pub open spec fn numstat_deletions(rs: Seq<RowView>) -> int
    decreases rs.len(),
{
    if rs.len() == 0 {
        0
    } else {
        numstat_deletions(rs.drop_last()) + rs.last().deletions
    }
}

/// The entries' additions add up to the sum of numstat's `+` column, and
/// their deletions to its `-` column, when git reported each change with its
/// own numstat row, in the same order, and the byte heuristic finds no
/// binary that numstat counted as text.
pub proof fn lemma_totals_match_numstat(
    cs: Seq<ChangeView>,
    rs: Seq<RowView>,
    bs: Seq<BlobPair>,
    with_contents: bool,
    max_bytes: nat,
)
    requires
        cs.len() == rs.len(),
        bs.len() == cs.len(),
        forall|i: int| 0 <= i < cs.len() ==> matching_row(rs, #[trigger] cs[i]) == Some(rs[i]),
        forall|i: int|
            0 <= i < cs.len() ==> entry_binary(
                #[trigger] cs[i],
                Some(rs[i]),
                blob_view(bs[i].old),
                blob_view(bs[i].new),
            ) == rs[i].binary,
        forall|i: int| 0 <= i < rs.len() ==> #[trigger] rs[i].binary ==> rs[i].additions == 0
            && rs[i].deletions == 0,
    ensures
        total_additions(assembled(cs, rs, bs, with_contents, max_bytes)) == numstat_additions(rs),
        total_deletions(assembled(cs, rs, bs, with_contents, max_bytes)) == numstat_deletions(rs),
    decreases cs.len(),
{
    let es = assembled(cs, rs, bs, with_contents, max_bytes);
    if cs.len() > 0 {
        let n = cs.len() - 1;
        let cs2 = cs.drop_last();
        let rs2 = rs.drop_last();
        let bs2 = bs.drop_last();
        assert forall|i: int| 0 <= i < cs2.len() implies matching_row(rs2, #[trigger] cs2[i]) == Some(
            rs2[i],
        ) by {
            lemma_matching_row_prefix(rs, cs[i], i);
        }
        assert forall|i: int|
            0 <= i < cs2.len() implies entry_binary(
            #[trigger] cs2[i],
            Some(rs2[i]),
            blob_view(bs2[i].old),
            blob_view(bs2[i].new),
        ) == rs2[i].binary by {
            assert(cs2[i] == cs[i]);
        }
        assert forall|i: int| 0 <= i < rs2.len() implies #[trigger] rs2[i].binary ==> rs2[i].additions
            == 0 && rs2[i].deletions == 0 by {
            assert(rs2[i] == rs[i]);
        }
        lemma_totals_match_numstat(cs2, rs2, bs2, with_contents, max_bytes);
        let es2 = assembled(cs2, rs2, bs2, with_contents, max_bytes);
        assert forall|i: int| 0 <= i < es2.len() implies es2[i] == es.drop_last()[i] by {
            lemma_matching_row_prefix(rs, cs[i], i);
        }
        assert(es2 =~= es.drop_last());
        assert(cs[n] == cs.last());
        assert(matching_row(rs, cs[n]) == Some(rs[n]));
    }
}

/// A row that matches at position `i` still matches in the rows without the
/// last one, when `i` is not the last.
proof fn lemma_matching_row_prefix(rs: Seq<RowView>, c: ChangeView, i: int)
    requires
        0 <= i < rs.len() - 1,
        matching_row(rs, c) == Some(rs[i]),
    ensures
        matching_row(rs.drop_last(), c) == Some(rs[i]),
    decreases rs.len(),
{
    if rs[0].path == c.path && rs[0].old_path == c.old_path {
        assert(rs.drop_last()[0] == rs[0]);
    } else {
        assert(rs.skip(1).drop_last() =~= rs.drop_last().skip(1));
        if i == 0 {
            lemma_matching_row_matches(rs, c);
        }
        if i >= 1 {
            assert(rs.skip(1)[i - 1] == rs[i]);
            lemma_matching_row_prefix(rs.skip(1), c, i - 1);
        }
    }
}

/// The row that `matching_row` gives has the change's paths.
proof fn lemma_matching_row_matches(rs: Seq<RowView>, c: ChangeView)
    ensures
        matching_row(rs, c) matches Some(r) ==> r.path == c.path && r.old_path == c.old_path,
    decreases rs.len(),
{
    if rs.len() > 0 {
        lemma_matching_row_matches(rs.skip(1), c);
    }
}

/// One blob of a tree: its full path and object id.
#[derive(Clone, Debug, PartialEq, Eq)]
pub struct TreeEntry {
    pub path: String,
    pub oid: String,
}

pub type TreeModel = Seq<(Seq<char>, Seq<char>)>;

pub open spec fn tree_view(t: Seq<TreeEntry>) -> TreeModel {
    t.map_values(|e: TreeEntry| (e.path@, e.oid@))
}

/// No path occurs twice in a tree.
pub open spec fn paths_unique(t: TreeModel) -> bool {
    forall|i: int, j: int| 0 <= i < j < t.len() ==> t[i].0 != t[j].0
}

pub open spec fn has_path(t: TreeModel, p: Seq<char>) -> bool {
    exists|i: int| 0 <= i < t.len() && t[i].0 == p
}

/// What a tree-only change claims of the two trees: a modified path is in
/// both with different blobs, an added one only in the head, a deleted one
/// only in the base, a rename pairs a base-only and a head-only path with
/// the same blob.
pub open spec fn change_sound(base: TreeModel, head: TreeModel, c: ChangeView) -> bool {
    match c.kind {
        ChangeKind::Modified => c.old_path is None && exists|i: int, j: int|
            0 <= i < base.len() && 0 <= j < head.len() && base[i].0 == c.path && head[j].0
                == c.path && base[i].1 != head[j].1,
        ChangeKind::Added => c.old_path is None && has_path(head, c.path) && !has_path(
            base,
            c.path,
        ),
        ChangeKind::Deleted => c.old_path is None && has_path(base, c.path) && !has_path(
            head,
            c.path,
        ),
        ChangeKind::Renamed => c.old_path matches Some(o) && !has_path(head, o) && !has_path(
            base,
            c.path,
        ) && exists|i: int, j: int|
            0 <= i < base.len() && 0 <= j < head.len() && base[i].0 == o && head[j].0 == c.path
                && base[i].1 == head[j].1,
    }
}

/// No two changes name the same path, and no two renames the same old path.
pub open spec fn pairing_one_to_one(cs: Seq<ChangeView>) -> bool {
    &&& forall|a: int, b: int| 0 <= a < b < cs.len() ==> cs[a].path != cs[b].path
    &&& forall|a: int, b: int|
        0 <= a < b < cs.len() && cs[a].old_path is Some && cs[b].old_path is Some ==> cs[a].old_path
            != cs[b].old_path
}

fn find_path(t: &Vec<TreeEntry>, p: &String) -> (r: Option<usize>)
    ensures
        match r {
            Some(i) => i < t.len() && tree_view(t@)[i as int].0 == p@,
            None => !has_path(tree_view(t@), p@),
        },
{
    let mut i: usize = 0;
    while i < t.len()
        invariant
            i <= t.len(),
            forall|j: int| 0 <= j < i ==> tree_view(t@)[j].0 != p@,
        decreases t.len() - i,
    {
        if t[i].path == *p {
            return Some(i);
        }
        i = i + 1;
    }
    None
}

/// Classifies the paths of two trees when git reported no change: modified,
/// added, deleted, and renames of an unchanged blob, each base-only path
/// paired with at most one head-only path of the same blob.
pub fn classify_trees(base: &Vec<TreeEntry>, head: &Vec<TreeEntry>) -> (r: Vec<FileChange>)
    requires
        paths_unique(tree_view(base@)),
        paths_unique(tree_view(head@)),
    ensures
        forall|m: int|
            0 <= m < r@.len() ==> change_sound(tree_view(base@), tree_view(head@), #[trigger] r@[m]@),
        pairing_one_to_one(changes_view(r@)),
        forall|j: int|
            0 <= j < head@.len() && !has_path(tree_view(base@), #[trigger] tree_view(head@)[j].0)
                ==> exists|m: int| 0 <= m < r@.len() && r@[m].path@ == tree_view(head@)[j].0,
        forall|i: int, j: int|
            0 <= i < base@.len() && 0 <= j < head@.len() && #[trigger] tree_view(base@)[i].0
                == #[trigger] tree_view(head@)[j].0 && tree_view(base@)[i].1 != tree_view(
                head@,
            )[j].1 ==> exists|m: int| 0 <= m < r@.len() && r@[m].path@ == tree_view(head@)[j].0,
{
    let ghost bv = tree_view(base@);
    let ghost hv = tree_view(head@);
    let mut in_base: Vec<bool> = Vec::new();
    for k in 0..head.len()
        invariant
            hv == tree_view(head@),
            bv == tree_view(base@),
            in_base@.len() == k,
            forall|q: int| 0 <= q < k ==> #[trigger] in_base@[q] == has_path(bv, hv[q].0),
    {
        let f = find_path(base, &head[k].path);
        in_base.push(f.is_some());
    }
    let mut used: Vec<bool> = Vec::new();
    for k in 0..head.len()
        invariant
            used@.len() == k,
            forall|q: int| 0 <= q < k ==> !#[trigger] used@[q],
    {
        used.push(false);
    }
    let mut out: Vec<FileChange> = Vec::new();
    // For each change, the head position its path comes from (-1 for a path
    // of the base); for each used head position, the change that took it.
    let ghost mut hs: Seq<int> = Seq::empty();
    let ghost mut owner: Seq<int> = Seq::new(head@.len(), |q: int| 0);
    for i in 0..base.len()
        invariant
            hv == tree_view(head@),
            bv == tree_view(base@),
            paths_unique(bv),
            paths_unique(hv),
            in_base@.len() == head@.len(),
            used@.len() == head@.len(),
            owner.len() == head@.len(),
            forall|q: int| 0 <= q < head@.len() ==> #[trigger] in_base@[q] == has_path(bv, hv[q].0),
            hs.len() == out@.len(),
            forall|m: int|
                0 <= m < out@.len() ==> change_sound(bv, hv, #[trigger] out@[m]@),
            pairing_one_to_one(changes_view(out@)),
            forall|m: int|
                0 <= m < out@.len() ==> (#[trigger] hs[m] == -1) == (out@[m].kind
                    != ChangeKind::Renamed),
            forall|m: int|
                #![trigger out@[m]]
                0 <= m < out@.len() && hs[m] == -1 ==> exists|q: int|
                    0 <= q < i && bv[q].0 == out@[m].path@,
            forall|m: int|
                #![trigger out@[m]]
                0 <= m < out@.len() && out@[m].kind == ChangeKind::Renamed ==> exists|q: int|
                    0 <= q < i && opt_view(out@[m].old_path) == Some(bv[q].0),
            forall|m: int|
                #![trigger out@[m]]
                0 <= m < out@.len() && hs[m] != -1 ==> 0 <= hs[m] < head@.len() && used@[hs[m]]
                    && !in_base@[hs[m]] && hv[hs[m]].0 == out@[m].path@,
            forall|q: int|
                #![trigger used@[q]]
                0 <= q < head@.len() && used@[q] ==> 0 <= owner[q] < out@.len() && hs[owner[q]] == q,
            forall|p: int, q: int|
                0 <= p < i && 0 <= q < head@.len() && #[trigger] bv[p].0 == #[trigger] hv[q].0
                    && bv[p].1 != hv[q].1 ==> exists|m: int|
                    0 <= m < out@.len() && out@[m].path@ == hv[q].0,
    {
        let bp = &base[i].path;
        let ghost out0 = out@;
        let ghost hs0 = hs;
        assert(bv[i as int].0 == bp@);
        match find_path(head, bp) {
            Some(j) => {
                if base[i].oid != head[j].oid {
                    let c = FileChange {
                        kind: ChangeKind::Modified,
                        path: bp.clone(),
                        old_path: None,
                    };
                    proof {
                        assert forall|m: int| 0 <= m < out@.len() implies out@[m].path@ != bp@ by {
                            if hs[m] == -1 {
                                let q = choose|q: int| 0 <= q < i && bv[q].0 == out@[m].path@;
                            } else {
                                assert(!in_base@[hs[m]]);
                                assert(bv[i as int].0 == bp@);
                            }
                        }
                        assert(change_sound(bv, hv, c@));
                    }
                    let ghost before = changes_view(out@);
                    out.push(c);
                    proof {
                        hs = hs.push(-1);
                        assert(changes_view(out@) =~= before.push(c@));
                    }
                }
            },
            None => {
                let mut k: usize = 0;
                let mut found: Option<usize> = None;
                while k < head.len()
                    invariant_except_break
                        found is None,
                    invariant
                        i < base@.len(),
                        k <= head@.len(),
                        in_base@.len() == head@.len(),
                        used@.len() == head@.len(),
                        hv == tree_view(head@),
                        bv == tree_view(base@),
                    ensures
                        found matches Some(f) ==> f < head@.len() && !in_base@[f as int]
                            && !used@[f as int] && hv[f as int].1 == bv[i as int].1,
                    decreases head@.len() - k,
                {
                    if !in_base[k] && !used[k] && head[k].oid == base[i].oid {
                        found = Some(k);
                        break;
                    }
                    k = k + 1;
                }
                match found {
                    Some(f) => {
                        let c = FileChange {
                            kind: ChangeKind::Renamed,
                            path: head[f].path.clone(),
                            old_path: Some(bp.clone()),
                        };
                        proof {
                            assert(!has_path(bv, hv[f as int].0));
                            assert forall|m: int| 0 <= m < out@.len() implies out@[m].path@
                                != hv[f as int].0 by {
                                if hs[m] == -1 {
                                    let q = choose|q: int| 0 <= q < i && bv[q].0 == out@[m].path@;
                                } else {
                                    assert(used@[hs[m]]);
                                    if hs[m] != f {
                                        assert(hv[hs[m]].0 != hv[f as int].0);
                                    }
                                }
                            }
                            assert forall|m: int|
                                0 <= m < out@.len() && out@[m]@.old_path is Some implies out@[m]@.old_path
                                != Some(bp@) by {
                                let q = choose|q: int| 0 <= q < i && opt_view(out@[m].old_path) == Some(bv[q].0);
                            }
                            assert(change_sound(bv, hv, c@)) by {
                                assert(bv[i as int].0 == bp@ && hv[f as int].0 == c.path@);
                            }
                        }
                        let ghost before = changes_view(out@);
                        out.push(c);
                        used.set(f, true);
                        proof {
                            hs = hs.push(f as int);
                            owner = owner.update(f as int, out@.len() - 1);
                            assert(changes_view(out@) =~= before.push(c@));
                        }
                    },
                    None => {
                        let c = FileChange {
                            kind: ChangeKind::Deleted,
                            path: bp.clone(),
                            old_path: None,
                        };
                        proof {
                            assert forall|m: int| 0 <= m < out@.len() implies out@[m].path@ != bp@ by {
                                if hs[m] == -1 {
                                    let q = choose|q: int| 0 <= q < i && bv[q].0 == out@[m].path@;
                                } else {
                                    assert(!in_base@[hs[m]]);
                                }
                            }
                        }
                        let ghost before = changes_view(out@);
                        out.push(c);
                        proof {
                            hs = hs.push(-1);
                            assert(changes_view(out@) =~= before.push(c@));
                        }
                    },
                }
            },
        }
        proof {
            assert(forall|m: int| 0 <= m < out0.len() ==> out@[m] == out0[m] && hs[m] == hs0[m]);
            assert forall|p: int, q: int|
                0 <= p < i + 1 && 0 <= q < head@.len() && #[trigger] bv[p].0 == #[trigger] hv[q].0
                    && bv[p].1 != hv[q].1 implies exists|m: int|
                0 <= m < out@.len() && out@[m].path@ == hv[q].0 by {
                if p == i {
                    assert(has_path(hv, bv[p].0));
                    assert(out@.len() == out0.len() + 1);
                    assert(out@[out@.len() - 1].path@ == hv[q].0);
                } else {
                    let m = choose|m: int| 0 <= m < out0.len() && out0[m].path@ == hv[q].0;
                    assert(out@[m].path@ == hv[q].0);
                }
            }
            assert forall|m: int|
                #![trigger out@[m]]
                0 <= m < out@.len() && hs[m] == -1 implies exists|q: int|
                    0 <= q < i + 1 && bv[q].0 == out@[m].path@ by {
                if m < out0.len() {
                    let q = choose|q: int| 0 <= q < i && bv[q].0 == out0[m].path@;
                    assert(bv[q].0 == out@[m].path@);
                } else {
                    assert(bv[i as int].0 == out@[m].path@);
                }
            }
            assert forall|m: int|
                #![trigger out@[m]]
                0 <= m < out@.len() && out@[m].kind == ChangeKind::Renamed implies exists|q: int|
                    0 <= q < i + 1 && opt_view(out@[m].old_path) == Some(bv[q].0) by {
                if m < out0.len() {
                    let q = choose|q: int| 0 <= q < i && opt_view(out0[m].old_path) == Some(bv[q].0);
                    assert(opt_view(out@[m].old_path) == Some(bv[q].0));
                } else {
                    assert(opt_view(out@[m].old_path) == Some(bv[i as int].0));
                }
            }
        }
    }
    for k in 0..head.len()
        invariant
            hv == tree_view(head@),
            bv == tree_view(base@),
            paths_unique(bv),
            paths_unique(hv),
            in_base@.len() == head@.len(),
            used@.len() == head@.len(),
            owner.len() == head@.len(),
            forall|q: int| 0 <= q < head@.len() ==> #[trigger] in_base@[q] == has_path(bv, hv[q].0),
            hs.len() == out@.len(),
            forall|m: int|
                0 <= m < out@.len() ==> change_sound(bv, hv, #[trigger] out@[m]@),
            pairing_one_to_one(changes_view(out@)),
            forall|m: int|
                #![trigger out@[m]]
                0 <= m < out@.len() && hs[m] == -1 ==> has_path(bv, out@[m].path@),
            forall|m: int|
                #![trigger out@[m]]
                0 <= m < out@.len() && hs[m] != -1 ==> 0 <= hs[m] < head@.len() && (used@[hs[m]]
                    || hs[m] < k) && !in_base@[hs[m]] && hv[hs[m]].0 == out@[m].path@,
            forall|q: int|
                #![trigger used@[q]]
                0 <= q < head@.len() && used@[q] ==> 0 <= owner[q] < out@.len() && hs[owner[q]] == q,
            forall|q: int|
                0 <= q < k && !has_path(bv, #[trigger] hv[q].0) ==> exists|m: int|
                    0 <= m < out@.len() && out@[m].path@ == hv[q].0,
            forall|p: int, q: int|
                0 <= p < base@.len() && 0 <= q < head@.len() && #[trigger] bv[p].0 == #[trigger] hv[q].0
                    && bv[p].1 != hv[q].1 ==> exists|m: int|
                    0 <= m < out@.len() && out@[m].path@ == hv[q].0,
    {
        let ghost out0 = out@;
        let ghost hs0 = hs;
        if !in_base[k] && !used[k] {
            let c = FileChange { kind: ChangeKind::Added, path: head[k].path.clone(), old_path: None };
            proof {
                assert(hv[k as int].0 == c.path@);
                assert forall|m: int| 0 <= m < out@.len() implies out@[m].path@ != c.path@ by {
                    if hs[m] == -1 {
                        assert(has_path(bv, out@[m].path@));
                    } else {
                        if hs[m] == k {
                            assert(used@[hs[m]] || hs[m] < k);
                        } else {
                            assert(hv[hs[m]].0 != hv[k as int].0);
                        }
                    }
                }
            }
            let ghost before = changes_view(out@);
            out.push(c);
            proof {
                hs = hs.push(k as int);
                assert(changes_view(out@) =~= before.push(c@));
            }
        }
        proof {
            assert(forall|m: int| 0 <= m < out0.len() ==> out@[m] == out0[m] && hs[m] == hs0[m]);
            assert forall|q: int|
                0 <= q < k + 1 && !has_path(bv, #[trigger] hv[q].0) implies exists|m: int|
                    0 <= m < out@.len() && out@[m].path@ == hv[q].0 by {
                if q == k {
                    if used@[q] {
                        let m = owner[q];
                        assert(hs[m] == q);
                        assert(out@[m].path@ == hv[q].0);
                    } else {
                        assert(out@[out@.len() - 1].path@ == hv[q].0);
                    }
                } else {
                    let m = choose|m: int| 0 <= m < out0.len() && out0[m].path@ == hv[q].0;
                    assert(out@[m].path@ == hv[q].0);
                }
            }
            assert forall|p: int, q: int|
                0 <= p < base@.len() && 0 <= q < head@.len() && #[trigger] bv[p].0 == #[trigger] hv[q].0
                    && bv[p].1 != hv[q].1 implies exists|m: int|
                    0 <= m < out@.len() && out@[m].path@ == hv[q].0 by {
                let m = choose|m: int| 0 <= m < out0.len() && out0[m].path@ == hv[q].0;
                assert(out@[m].path@ == hv[q].0);
            }
        }
    }
    out
}

/// Comparing a tree with itself reports no change.
pub proof fn lemma_same_tree_no_changes(t: TreeModel, cs: Seq<ChangeView>)
    requires
        paths_unique(t),
        forall|m: int| 0 <= m < cs.len() ==> change_sound(t, t, #[trigger] cs[m]),
    ensures
        cs.len() == 0,
{
    if cs.len() > 0 {
        let c = cs[0];
        assert(change_sound(t, t, c));
        if c.kind == ChangeKind::Modified {
            let (i, j) = choose|i: int, j: int|
                0 <= i < t.len() && 0 <= j < t.len() && t[i].0 == c.path && t[j].0 == c.path
                    && t[i].1 != t[j].1;
            assert(i == j);
        } else if c.kind == ChangeKind::Renamed {
            let (i, j) = choose|i: int, j: int|
                0 <= i < t.len() && 0 <= j < t.len() && t[i].0 == c.old_path->0 && t[j].0
                    == c.path && t[i].1 == t[j].1;
            assert(has_path(t, c.old_path->0));
        }
    }
}

/// The line-by-line edit script of a text diff: one code per line, 0 for a
/// kept line, 1 for a deleted one, 2 for an inserted one.
pub uninterp spec fn line_diff_tags(old: Seq<char>, new: Seq<char>) -> Seq<u8>;

/// Relies on `similar::TextDiff::from_lines` and `iter_all_changes`: the
/// change tag of every line of the diff of `old` and `new`.
#[verifier::external_body]
fn diff_line_tags(old: &str, new: &str) -> (r: Vec<u8>)
    ensures
        r@ == line_diff_tags(old@, new@),
{
    similar::TextDiff::from_lines(old, new).iter_all_changes().map(|c| match c.tag() {
        similar::ChangeTag::Equal => 0u8,
        similar::ChangeTag::Delete => 1u8,
        similar::ChangeTag::Insert => 2u8,
    }).collect()
}

/// How many codes of `tags` equal `t`.
pub open spec fn count_tag(tags: Seq<u8>, t: u8) -> nat
    decreases tags.len(),
{
    if tags.len() == 0 {
        0
    } else {
        count_tag(tags.drop_last(), t) + if tags.last() == t {
            1nat
        } else {
            0nat
        }
    }
}

fn count_tags(tags: &Vec<u8>, t: u8) -> (r: u64)
    ensures
        r == count_tag(tags@, t),
{
    let mut n: u64 = 0;
    for i in 0..tags.len()
        invariant
            n == count_tag(tags@.subrange(0, i as int), t),
            n <= i,
            i <= tags@.len(),
    {
        assert(tags@.subrange(0, i + 1).drop_last() =~= tags@.subrange(0, i as int));
        if tags[i] == t {
            n = n + 1;
        }
    }
    assert(tags@.subrange(0, tags@.len() as int) =~= tags@);
    n
}

/// The number of lines of a text, as `str::lines().count()`: the number of
/// positions where a line starts (the first, and each one after a newline).
pub open spec fn line_count(s: Seq<char>) -> nat
    decreases s.len(),
{
    if s.len() == 0 {
        0
    } else {
        line_count(s.drop_last()) + if s.len() == 1 || s[s.len() - 2] == '\n' {
            1nat
        } else {
            0nat
        }
    }
}

fn count_lines(v: &Vec<char>) -> (r: u64)
    ensures
        r == line_count(v@),
{
    let mut n: u64 = 0;
    for i in 0..v.len()
        invariant
            n == line_count(v@.subrange(0, i as int)),
            n <= i,
            i <= v@.len(),
    {
        let ghost s = v@.subrange(0, i + 1);
        assert(s.drop_last() =~= v@.subrange(0, i as int));
        assert(s.last() == v@[i as int]);
        if i > 0 {
            assert(s[s.len() - 2] == v@[i - 1]);
        }
        if i == 0 || v[i - 1] == '\n' {
            n = n + 1;
        }
    }
    assert(v@.subrange(0, v@.len() as int) =~= v@);
    n
}

fn clamp_count(n: u64) -> (r: i32)
    ensures
        r == clamp_size(n as int),
{
    if n > 0x7fff_ffff {
        0x7fff_ffff
    } else {
        n as i32
    }
}

/// The counts of a tree-only change, computed from its blobs as git's
/// numstat would give them: every line of an added or deleted text, the
/// line diff of a modified one, nothing for a rename of the same blob;
/// binary when a side that exists cannot be read as text.
pub open spec fn fallback_row_spec(c: ChangeView, b: BlobPair) -> RowView {
    let ob = side_bytes(c.kind != ChangeKind::Added, blob_view(b.old));
    let nb = side_bytes(c.kind != ChangeKind::Deleted, blob_view(b.new));
    let binary = entry_binary(c, None, blob_view(b.old), blob_view(b.new));
    let tags = line_diff_tags(decode_utf8(ob), decode_utf8(nb));
    RowView {
        additions: if binary || c.kind == ChangeKind::Renamed || c.kind == ChangeKind::Deleted {
            0
        } else if c.kind == ChangeKind::Added {
            clamp_size(line_count(decode_utf8(nb)) as int)
        } else {
            clamp_size(count_tag(tags, 2) as int)
        },
        deletions: if binary || c.kind == ChangeKind::Renamed || c.kind == ChangeKind::Added {
            0
        } else if c.kind == ChangeKind::Deleted {
            clamp_size(line_count(decode_utf8(ob)) as int)
        } else {
            clamp_size(count_tag(tags, 1) as int)
        },
        binary,
        path: c.path,
        old_path: c.old_path,
    }
}

/// Counts for the changes of the tree-only classification, one row per
/// change, for `assemble_entries`.
pub fn fallback_rows(changes: &Vec<FileChange>, blobs: &Vec<BlobPair>) -> (r: Vec<NumstatRow>)
    requires
        blobs.len() == changes.len(),
    ensures
        r@.len() == changes@.len(),
        forall|i: int|
            0 <= i < r@.len() ==> #[trigger] r@[i]@ == fallback_row_spec(changes@[i]@, blobs@[i]),
{
    let mut out: Vec<NumstatRow> = Vec::new();
    for i in 0..changes.len()
        invariant
            blobs.len() == changes.len(),
            out@.len() == i,
            forall|k: int|
                0 <= k < i ==> #[trigger] out@[k]@ == fallback_row_spec(changes@[k]@, blobs@[k]),
    {
        let c = &changes[i];
        let b = &blobs[i];
        let empty: Vec<u8> = Vec::new();
        let has_old = c.kind != ChangeKind::Added;
        let has_new = c.kind != ChangeKind::Deleted;
        let (ob, old_missing) = if has_old {
            match &b.old {
                Some(x) => (x, false),
                None => (&empty, true),
            }
        } else {
            (&empty, false)
        };
        let (nb, new_missing) = if has_new {
            match &b.new {
                Some(x) => (x, false),
                None => (&empty, true),
            }
        } else {
            (&empty, false)
        };
        let binary = old_missing || new_missing || is_binary(ob.as_slice()) || is_binary(
            nb.as_slice(),
        );
        let (additions, deletions) = if binary || c.kind == ChangeKind::Renamed {
            (0, 0)
        } else {
            let old_text = utf8_lossy(ob.as_slice());
            let new_text = utf8_lossy(nb.as_slice());
            if c.kind == ChangeKind::Added {
                (clamp_count(count_lines(&chars_of(new_text.as_str()))), 0)
            } else if c.kind == ChangeKind::Deleted {
                (0, clamp_count(count_lines(&chars_of(old_text.as_str()))))
            } else {
                let tags = diff_line_tags(old_text.as_str(), new_text.as_str());
                (clamp_count(count_tags(&tags, 2)), clamp_count(count_tags(&tags, 1)))
            }
        };
        let row = NumstatRow {
            additions,
            deletions,
            binary,
            path: c.path.clone(),
            old_path: clone_opt_string(&c.old_path),
        };
        assert(row@ == fallback_row_spec(c@, *b));
        out.push(row);
    }
    out
}

/// The revision a worktree is compared with: `HEAD` when it has a commit;
/// for an unborn `HEAD`, the remote's default branch when known, else
/// `main` when the remote has it, else `master`.
pub open spec fn workspace_base_spec(
    head_born: bool,
    default_branch: Option<Seq<char>>,
    remote_main_exists: bool,
) -> Seq<char> {
    if head_born {
        "HEAD"@
    } else {
        match default_branch {
            Some(b) => "refs/remotes/origin/"@ + b,
            None => if remote_main_exists {
                "refs/remotes/origin/main"@
            } else {
                "refs/remotes/origin/master"@
            },
        }
    }
}

/// The revision a worktree's changes are taken against.
pub fn workspace_base_ref(head_born: bool, default_branch: Option<&str>, remote_main_exists: bool) -> (r:
    String)
    ensures
        r@ == workspace_base_spec(
            head_born,
            match default_branch {
                Some(b) => Some(b@),
                None => None,
            },
            remote_main_exists,
        ),
{
    if head_born {
        string_of(&chars_of("HEAD"))
    } else {
        match default_branch {
            Some(b) => {
                let mut s = string_of(&chars_of("refs/remotes/origin/"));
                crate::text::push_str(&mut s, b);
                s
            },
            None => if remote_main_exists {
                string_of(&chars_of("refs/remotes/origin/main"))
            } else {
                string_of(&chars_of("refs/remotes/origin/master"))
            },
        }
    }
}

/// The paths of `git ls-files --others --exclude-standard -z`.
pub open spec fn untracked_spec(fields: Seq<Seq<char>>) -> Seq<Seq<char>>
    decreases fields.len(),
{
    if fields.len() == 0 {
        Seq::empty()
    } else {
        let prev = untracked_spec(fields.drop_last());
        if fields.last().len() > 0 {
            prev.push(fields.last())
        } else {
            prev
        }
    }
}

/// The worktree's changes: those of the files under version control
/// against the base,
/// then each untracked file as an addition.
pub open spec fn workspace_changes_spec(versioned: Seq<ChangeView>, untracked: Seq<Seq<char>>) -> Seq<ChangeView> {
    versioned + untracked.map_values(|p: Seq<char>| ChangeView { kind: ChangeKind::Added, path: p, old_path: None })
}

/// Joins the changes of versioned files (from `git diff --name-status -z <base>`) with
/// the untracked files (the NUL-separated output of `git ls-files --others
/// --exclude-standard -z`), which are additions.
pub fn workspace_changes(versioned: Vec<FileChange>, untracked_out: &str) -> (r: Vec<FileChange>)
    ensures
        changes_view(r@) == workspace_changes_spec(
            changes_view(versioned@),
            untracked_spec(split_spec(untracked_out@, '\0')),
        ),
{
    let fields = split_chars(&chars_of(untracked_out), '\0');
    let ghost fs = split_spec(untracked_out@, '\0');
    let ghost tv = changes_view(versioned@);
    let mut out = versioned;
    for i in 0..fields.len()
        invariant
            fields@.len() == fs.len(),
            forall|k: int| 0 <= k < fields@.len() ==> #[trigger] fields@[k]@ == fs[k],
            changes_view(out@) == workspace_changes_spec(tv, untracked_spec(fs.subrange(0, i as int))),
    {
        proof {
            assert(fs.subrange(0, i + 1).drop_last() =~= fs.subrange(0, i as int));
            assert(fs.subrange(0, i + 1).last() == fs[i as int]);
        }
        let ghost u0 = untracked_spec(fs.subrange(0, i as int));
        if fields[i].len() > 0 {
            let c = FileChange { kind: ChangeKind::Added, path: string_of(&fields[i]), old_path: None };
            let ghost before = changes_view(out@);
            out.push(c);
            proof {
                let f = |p: Seq<char>| ChangeView { kind: ChangeKind::Added, path: p, old_path: None };
                assert(u0.push(fs[i as int]).map_values(f) =~= u0.map_values(f).push(c@));
                assert(changes_view(out@) =~= before.push(c@));
                assert(tv + u0.map_values(f).push(c@) =~= (tv + u0.map_values(f)).push(c@));
            }
        }
    }
    proof {
        assert(fs.subrange(0, fields@.len() as int) =~= fs);
    }
    out
}

} // verus!
