//! Bringing a live view in step with the store: which rows to write and
//! which to take away, leaving alone the rows that are being edited.

use crate::editing::EditingSet;
use crate::entry::{views, EntryView, TOTPEntry};
use crate::keyed::has_name;
use crate::text::{same_text, texts};
use crate::totp::{generate_totp, remaining_at, remaining_seconds, totp_of};
use vstd::prelude::*;
use vstd::string::*;

verus! {

/// One change to the rows of a view. A row is known by its name.
#[derive(Debug, PartialEq, Eq)]
pub enum RowOp {
    /// Write the row of this name, new or not, with this code and countdown.
    Upsert { name: String, code: String, remaining: u64 },
    /// Take the row of this name away.
    Remove { name: String },
}

/// A change to the rows of a view, as texts.
pub enum RowOpView {
    Upsert { name: Seq<char>, code: Seq<char>, remaining: u64 },
    Remove { name: Seq<char> },
}

impl RowOpView {
    /// The name of the row that the change is about.
    pub open spec fn name(self) -> Seq<char> {
        match self {
            RowOpView::Upsert { name, .. } => name,
            RowOpView::Remove { name } => name,
        }
    }
}

impl View for RowOp {
    type V = RowOpView;

    open spec fn view(&self) -> RowOpView {
        match *self {
            RowOp::Upsert { name, code, remaining } => RowOpView::Upsert {
                name: name@,
                code: code@,
                remaining,
            },
            RowOp::Remove { name } => RowOpView::Remove { name: name@ },
        }
    }
}

impl RowOp {
    /// The name of the row that the change is about.
    pub fn name(&self) -> (name: &String)
        ensures
            name@ == self@.name(),
    {
        match self {
            RowOp::Upsert { name, .. } => name,
            RowOp::Remove { name } => name,
        }
    }
}

/// The changes of a list, each as texts.
pub open spec fn op_views(ops: Seq<RowOp>) -> Seq<RowOpView> {
    ops.map_values(|op: RowOp| op@)
}

/// What a row shows in place of a code when the secret has none: "Invalid".
pub open spec fn invalid_code() -> Seq<char> {
    seq!['I', 'n', 'v', 'a', 'l', 'i', 'd']
}

/// What a row shows beside its name.
pub struct RowData {
    pub code: Seq<char>,
    pub remaining: u64,
}

/// What a row shows for the outcome of deriving a code with `left` seconds
/// to go: the code with the seconds, or, where there is no code, the
/// placeholder with a countdown of zero.
pub open spec fn shown_with(code: Option<Seq<char>>, left: u64) -> RowData {
    match code {
        Some(code) => RowData { code, remaining: left },
        None => RowData { code: invalid_code(), remaining: 0 },
    }
}

/// What the row of a secret shows at `now`.
pub open spec fn shown_for(secret: Seq<char>, now: u64) -> RowData {
    shown_with(
        match totp_of(secret, now) {
            Ok(code) => Some(code),
            Err(_) => None,
        },
        remaining_at(now as int) as u64,
    )
}

/// The writing of a row of this name that shows this.
pub open spec fn upsert_of(name: Seq<char>, shown: RowData) -> RowOpView {
    RowOpView::Upsert { name, code: shown.code, remaining: shown.remaining }
}

/// The writing of the row of an entry at `now`.
pub open spec fn row_of(entry: EntryView, now: u64) -> RowOpView {
    upsert_of(entry.name, shown_for(entry.value, now))
}

/// The code of an outcome of deriving one, if it has one.
pub open spec fn code_in(outcome: Result<String, String>) -> Option<Seq<char>> {
    match outcome {
        Ok(code) => Some(code@),
        Err(_) => None,
    }
}

/// The rows to write: one for each entry that is not being edited, in the
/// order of the entries.
pub open spec fn upserts(entries: Seq<EntryView>, editing: Set<Seq<char>>, now: u64) -> Seq<
    RowOpView,
> {
    entries.filter_map(
        |e: EntryView|
            if editing.contains(e.name) {
                None
            } else {
                Some(row_of(e, now))
            },
    )
}

/// The rows to take away: each shown row whose name no entry has and that is
/// not being edited, in the order of the rows.
pub open spec fn removals(
    rows: Seq<Seq<char>>,
    entries: Seq<EntryView>,
    editing: Set<Seq<char>>,
) -> Seq<RowOpView> {
    rows.filter_map(
        |n: Seq<char>|
            if has_name(entries, n) || editing.contains(n) {
                None
            } else {
                Some(RowOpView::Remove { name: n })
            },
    )
}

/// The changes that bring the shown rows in step with the entries at `now`:
/// the rows to write, followed by the rows to take away.
pub open spec fn diff_of(
    entries: Seq<EntryView>,
    rows: Seq<Seq<char>>,
    editing: Set<Seq<char>>,
    now: u64,
) -> Seq<RowOpView> {
    upserts(entries, editing, now) + removals(rows, entries, editing)
}

/// Whether an entry of the list has the name.
pub fn names_contain(entries: &Vec<TOTPEntry>, name: &str) -> (held: bool)
    ensures
        held == has_name(views(entries@), name@),
{
    let mut i: usize = 0;
    while i < entries.len()
        invariant
            i <= entries.len(),
            forall|j: int| 0 <= j < i ==> (#[trigger] views(entries@)[j]).name != name@,
        decreases entries.len() - i,
    {
        if same_text(entries[i].name.as_str(), name) {
            assert(views(entries@)[i as int].name == name@);
            return true;
        }
        i += 1;
    }
    false
}

/// The writing of the row of a name, given the outcome of deriving its code
/// and the seconds left.
pub fn row_from(name: String, code: Result<String, String>, left: u64) -> (op: RowOp)
    ensures
        op@ == upsert_of(name@, shown_with(code_in(code), left)),
{
    match code {
        Ok(code) => RowOp::Upsert { name, code, remaining: left },
        Err(_) => {
            let code = String::from_str("Invalid");
            proof {
                reveal_strlit("Invalid");
                assert(code@ =~= invalid_code());
            }
            RowOp::Upsert { name, code, remaining: 0 }
        },
    }
}

/// Computes the row of an entry at `now`.
pub fn row_for(entry: &TOTPEntry, now: u64) -> (op: RowOp)
    ensures
        op@ == row_of(entry@, now),
{
    row_from(entry.name.clone(), generate_totp(entry.secret.as_str(), now), remaining_seconds(now))
}

/// Computes the changes that bring the rows of a view, known by their names,
/// in step with the entries at `now`.
///
/// Each entry that is not being edited gets its row written, with its current
/// code and countdown. Each shown row whose name no entry has, and that is not
/// being edited, is taken away. A name that is being edited gets no change.
pub fn diff(
    current_entries: &Vec<TOTPEntry>,
    previous_rows: &Vec<String>,
    editing: &EditingSet,
    now: u64,
) -> (ops: Vec<RowOp>)
    ensures
        op_views(ops@) == diff_of(views(current_entries@), texts(previous_rows@), editing@, now),
{
    let ghost entries = views(current_entries@);
    let ghost rows = texts(previous_rows@);
    let ghost write = |e: EntryView|
        if editing@.contains(e.name) {
            None
        } else {
            Some(row_of(e, now))
        };
    let ghost take_away = |n: Seq<char>|
        if has_name(entries, n) || editing@.contains(n) {
            None
        } else {
            Some(RowOpView::Remove { name: n })
        };
    let mut ops: Vec<RowOp> = Vec::new();
    let mut i: usize = 0;
    while i < current_entries.len()
        invariant
            i <= current_entries.len(),
            entries == views(current_entries@),
            write == |e: EntryView|
                if editing@.contains(e.name) {
                    None
                } else {
                    Some(row_of(e, now))
                },
            op_views(ops@) == entries.take(i as int).filter_map(write),
        decreases current_entries.len() - i,
    {
        let entry = &current_entries[i];
        let ghost before = op_views(ops@);
        proof {
            entries.lemma_filter_map_take_succ(write, i as int);
        }
        if !editing.contains(entry.name.as_str()) {
            let op = row_for(entry, now);
            ops.push(op);
            assert(op_views(ops@) =~= before + seq![op@]);
        }
        i += 1;
    }
    assert(entries.take(i as int) =~= entries);
    let ghost written = op_views(ops@);
    let mut j: usize = 0;
    while j < previous_rows.len()
        invariant
            j <= previous_rows.len(),
            entries == views(current_entries@),
            rows == texts(previous_rows@),
            take_away == |n: Seq<char>|
                if has_name(entries, n) || editing@.contains(n) {
                    None
                } else {
                    Some(RowOpView::Remove { name: n })
                },
            op_views(ops@) == written + rows.take(j as int).filter_map(take_away),
        decreases previous_rows.len() - j,
    {
        let row = &previous_rows[j];
        let ghost before = op_views(ops@);
        proof {
            rows.lemma_filter_map_take_succ(take_away, j as int);
        }
        if !names_contain(current_entries, row.as_str()) && !editing.contains(row.as_str()) {
            let op = RowOp::Remove { name: row.clone() };
            ops.push(op);
            assert(op_views(ops@) =~= before + seq![op@]);
        }
        j += 1;
    }
    assert(rows.take(j as int) =~= rows);
    ops
}

/// A name that is being edited gets no change: none of the changes is about it.
pub proof fn lemma_edited_name_untouched(
    entries: Seq<EntryView>,
    rows: Seq<Seq<char>>,
    editing: Set<Seq<char>>,
    now: u64,
    name: Seq<char>,
)
    requires
        editing.contains(name),
    ensures
        forall|k: int|
            0 <= k < diff_of(entries, rows, editing, now).len() ==> (#[trigger] diff_of(
                entries,
                rows,
                editing,
                now,
            )[k]).name() != name,
{
    let write = |e: EntryView|
        if editing.contains(e.name) {
            None
        } else {
            Some(row_of(e, now))
        };
    let take_away = |n: Seq<char>|
        if has_name(entries, n) || editing.contains(n) {
            None
        } else {
            Some(RowOpView::Remove { name: n })
        };
    let written = upserts(entries, editing, now);
    let taken = removals(rows, entries, editing);
    let all = diff_of(entries, rows, editing, now);
    assert forall|k: int| 0 <= k < all.len() implies (#[trigger] all[k]).name() != name by {
        if k < written.len() {
            entries.lemma_filter_map_contains(write, written[k]);
        } else {
            rows.lemma_filter_map_contains(take_away, taken[k - written.len()]);
        }
    }
}

} // verus!
