//! The rows of a view, known by their names, and what the changes of the
//! reconciler make of them.

use crate::keyed::{
    distinct_names, has_name, lemma_mapping_lookup, lemma_mapping_names, lemma_with_item,
    lemma_without_name, mapping_of, position, with_item, without_name, Keyed,
};
use crate::entry::EntryView;
use crate::reconciler::{
    diff_of, op_views, removals, row_of, shown_for, upserts, RowData, RowOp, RowOpView,
};
use crate::text::{same_text, texts};
use vstd::prelude::*;
use vstd::string::*;

verus! {

/// A row of a view: the name of an entry, its code, and the seconds left.
#[derive(Debug, PartialEq, Eq)]
pub struct Row {
    pub name: String,
    pub code: String,
    pub remaining: u64,
}

/// A row as texts: its name, and as value what it shows.
pub type RowView = Keyed<RowData>;

impl View for Row {
    type V = RowView;

    open spec fn view(&self) -> RowView {
        Keyed { name: self.name@, value: RowData { code: self.code@, remaining: self.remaining } }
    }
}

/// The rows of a list, each as texts.
pub open spec fn row_views(rows: Seq<Row>) -> Seq<RowView> {
    rows.map_values(|r: Row| r@)
}

/// The names of a list of rows, in order.
pub open spec fn row_names(rows: Seq<RowView>) -> Seq<Seq<char>> {
    rows.map_values(|r: RowView| r.name)
}

/// The rows after one change: a written row stands in its place, or at the
/// end if it is new; a row taken away leaves the others in their order.
pub open spec fn rows_after_op(rows: Seq<RowView>, op: RowOpView) -> Seq<RowView> {
    match op {
        RowOpView::Upsert { name, code, remaining } => with_item(
            rows,
            Keyed { name, value: RowData { code, remaining } },
        ),
        RowOpView::Remove { name } => without_name(rows, name),
    }
}

/// The rows after a list of changes, made in order.
pub open spec fn rows_after_ops(rows: Seq<RowView>, ops: Seq<RowOpView>) -> Seq<RowView>
    decreases ops.len(),
{
    if ops.len() == 0 {
        rows
    } else {
        rows_after_op(rows_after_ops(rows, ops.drop_last()), ops.last())
    }
}

/// What is shown after one change: a written row shows what was written,
/// whether it was shown before or not; a row taken away is not shown.
pub open spec fn after_op(shown: Map<Seq<char>, RowData>, op: RowOpView) -> Map<
    Seq<char>,
    RowData,
> {
    match op {
        RowOpView::Upsert { name, code, remaining } => shown.insert(
            name,
            RowData { code, remaining },
        ),
        RowOpView::Remove { name } => shown.remove(name),
    }
}

/// What is shown after a list of changes, made in order.
pub open spec fn after_ops(shown: Map<Seq<char>, RowData>, ops: Seq<RowOpView>) -> Map<
    Seq<char>,
    RowData,
>
    decreases ops.len(),
{
    if ops.len() == 0 {
        shown
    } else {
        after_op(after_ops(shown, ops.drop_last()), ops.last())
    }
}

/// The rows that a view shows, in the order in which it shows them. No name
/// occurs twice.
pub struct ViewRows {
    rows: Vec<Row>,
}

impl View for ViewRows {
    type V = Map<Seq<char>, RowData>;

    /// What is shown under each name.
    open spec fn view(&self) -> Map<Seq<char>, RowData> {
        mapping_of(self.listing())
    }
}

impl ViewRows {
    /// The rows in the order in which they are shown.
    pub closed spec fn listing(&self) -> Seq<RowView> {
        row_views(self.rows@)
    }

    /// The invariant of the rows: no name occurs twice.
    pub open spec fn wf(&self) -> bool {
        distinct_names(self.listing())
    }

    /// No rows.
    pub fn new() -> (rows: ViewRows)
        ensures
            rows.wf(),
            rows.listing() == Seq::<RowView>::empty(),
            rows@ == Map::<Seq<char>, RowData>::empty(),
    {
        ViewRows { rows: Vec::new() }
    }

    /// The rows, in the order in which they are shown.
    pub fn rows(&self) -> (rows: &Vec<Row>)
        ensures
            row_views(rows@) == self.listing(),
    {
        &self.rows
    }

    /// The names of the rows, in the order in which they are shown.
    pub fn names(&self) -> (names: Vec<String>)
        ensures
            texts(names@) == row_names(self.listing()),
            forall|n: Seq<char>| self@.dom().contains(n) <==> texts(names@).contains(n),
    {
        let mut names: Vec<String> = Vec::new();
        let mut i: usize = 0;
        while i < self.rows.len()
            invariant
                i <= self.rows.len(),
                names@.len() == i,
                forall|j: int| 0 <= j < i ==> (#[trigger] names@[j])@ == self.rows@[j].name@,
            decreases self.rows.len() - i,
        {
            names.push(self.rows[i].name.clone());
            i += 1;
        }
        proof {
            assert(texts(names@) =~= row_names(self.listing()));
            assert forall|n: Seq<char>| self@.dom().contains(n) <==> texts(names@).contains(
                n,
            ) by {
                lemma_mapping_names(self.listing(), n);
                if has_name(self.listing(), n) {
                    assert(texts(names@)[position(self.listing(), n)] == n);
                }
            }
        }
        names
    }

    fn find(&self, name: &str) -> (found: Option<usize>)
        ensures
            found is Some ==> found->0 < self.listing().len(),
            found is Some ==> self.listing()[found->0 as int].name == name@,
            found is Some <==> has_name(self.listing(), name@),
            found is Some <==> self@.dom().contains(name@),
    {
        let mut i: usize = 0;
        while i < self.rows.len()
            invariant
                i <= self.rows.len(),
                forall|j: int| 0 <= j < i ==> (#[trigger] self.listing()[j]).name != name@,
            decreases self.rows.len() - i,
        {
            if same_text(self.rows[i].name.as_str(), name) {
                proof {
                    assert(self.listing()[i as int].name == name@);
                    lemma_mapping_names(self.listing(), name@);
                }
                return Some(i);
            }
            i += 1;
        }
        proof {
            lemma_mapping_names(self.listing(), name@);
        }
        None
    }

    /// Makes one change: writes a row in its place, or at the end if it is
    /// new; or takes a row away, if it is there.
    pub fn apply_op(&mut self, op: &RowOp)
        requires
            old(self).wf(),
        ensures
            final(self).wf(),
            final(self).listing() == rows_after_op(old(self).listing(), op@),
            final(self)@ == after_op(old(self)@, op@),
    {
        let ghost before = self.listing();
        match op {
            RowOp::Upsert { name, code, remaining } => {
                let row = Row { name: name.clone(), code: code.clone(), remaining: *remaining };
                proof {
                    lemma_with_item(before, row@);
                }
                match self.find(name.as_str()) {
                    Some(i) => {
                        proof {
                            lemma_mapping_lookup(before, i as int);
                        }
                        self.rows.set(i, row);
                        assert(self.listing() =~= before.update(i as int, row@));
                    },
                    None => {
                        self.rows.push(row);
                        assert(self.listing() =~= before.push(row@));
                    },
                }
            },
            RowOp::Remove { name } => {
                proof {
                    lemma_without_name(before, name@);
                }
                match self.find(name.as_str()) {
                    Some(i) => {
                        proof {
                            lemma_mapping_lookup(before, i as int);
                        }
                        self.rows.remove(i);
                        assert(self.listing() =~= before.remove(i as int));
                    },
                    None => {},
                }
            },
        }
    }

    /// Makes the changes in order.
    pub fn apply(&mut self, ops: &Vec<RowOp>)
        requires
            old(self).wf(),
        ensures
            final(self).wf(),
            final(self).listing() == rows_after_ops(old(self).listing(), op_views(ops@)),
            final(self)@ == after_ops(old(self)@, op_views(ops@)),
    {
        let ghost before = self@;
        let ghost rows_before = self.listing();
        let ghost changes = op_views(ops@);
        let mut k: usize = 0;
        while k < ops.len()
            invariant
                k <= ops.len(),
                changes == op_views(ops@),
                self.wf(),
                self@ == after_ops(before, changes.take(k as int)),
                self.listing() == rows_after_ops(rows_before, changes.take(k as int)),
            decreases ops.len() - k,
        {
            proof {
                assert(changes.take(k + 1).drop_last() =~= changes.take(k as int));
            }
            self.apply_op(&ops[k]);
            k += 1;
        }
        assert(changes.take(k as int) =~= changes);
    }
}

/// Making two lists of changes one after the other is making their
/// concatenation.
pub proof fn lemma_after_ops_concat(
    shown: Map<Seq<char>, RowData>,
    first: Seq<RowOpView>,
    second: Seq<RowOpView>,
)
    ensures
        after_ops(shown, first + second) == after_ops(after_ops(shown, first), second),
    decreases second.len(),
{
    if second.len() > 0 {
        assert((first + second).drop_last() =~= first + second.drop_last());
        lemma_after_ops_concat(shown, first, second.drop_last());
    }
}

/// Whether two mappings agree on a name: both lack it, or both have it with
/// the same value.
pub open spec fn same_at(
    a: Map<Seq<char>, RowData>,
    b: Map<Seq<char>, RowData>,
    name: Seq<char>,
) -> bool {
    (a.dom().contains(name) <==> b.dom().contains(name)) && (a.dom().contains(name) ==> a[name]
        == b[name])
}

/// After the rows of the entries are written, the row of an entry that is
/// not being edited shows what belongs to the entry, and every other name
/// shows what it showed.
pub proof fn lemma_upserts_shown(
    shown: Map<Seq<char>, RowData>,
    entries: Seq<EntryView>,
    editing: Set<Seq<char>>,
    now: u64,
    name: Seq<char>,
)
    requires
        distinct_names(entries),
    ensures
        has_name(entries, name) && !editing.contains(name) ==> after_ops(
            shown,
            upserts(entries, editing, now),
        ).dom().contains(name) && after_ops(shown, upserts(entries, editing, now))[name]
            == shown_for(entries[position(entries, name)].value, now),
        !has_name(entries, name) || editing.contains(name) ==> same_at(
            after_ops(shown, upserts(entries, editing, now)),
            shown,
            name,
        ),
    decreases entries.len(),
{
    if entries.len() > 0 {
        let front = entries.drop_last();
        let last = entries.last();
        lemma_upserts_shown(shown, front, editing, now, name);
        if !editing.contains(last.name) {
            let written = upserts(front, editing, now) + seq![row_of(last, now)];
            assert(written.drop_last() =~= upserts(front, editing, now));
        }
        if has_name(front, name) {
            lemma_mapping_lookup(entries, position(front, name));
        } else if last.name == name {
            lemma_mapping_lookup(entries, entries.len() - 1);
        } else if has_name(entries, name) {
            assert(front[position(entries, name)].name == name);
        }
    }
}

/// After the rows without an entry are taken away, a name that was among the
/// rows, that no entry has and that is not being edited is not shown, and
/// every other name shows what it showed.
pub proof fn lemma_removals_shown(
    shown: Map<Seq<char>, RowData>,
    rows: Seq<Seq<char>>,
    entries: Seq<EntryView>,
    editing: Set<Seq<char>>,
    name: Seq<char>,
)
    ensures
        rows.contains(name) && !has_name(entries, name) && !editing.contains(name) ==> !after_ops(
            shown,
            removals(rows, entries, editing),
        ).dom().contains(name),
        !rows.contains(name) || has_name(entries, name) || editing.contains(name) ==> same_at(
            after_ops(shown, removals(rows, entries, editing)),
            shown,
            name,
        ),
    decreases rows.len(),
{
    if rows.len() > 0 {
        let front = rows.drop_last();
        let last = rows.last();
        lemma_removals_shown(shown, front, entries, editing, name);
        if !has_name(entries, last) && !editing.contains(last) {
            let taken = removals(front, entries, editing) + seq![RowOpView::Remove { name: last }];
            assert(taken.drop_last() =~= removals(front, entries, editing));
        }
        if rows.contains(name) && last != name {
            assert(front[rows.index_of(name)] == name);
        }
    }
}

/// The changes of the reconciler bring the rows in step with the entries.
///
/// Take entries without repeated names, and rows of which the reconciler was
/// told every name. After its changes, a name that is not being edited is
/// shown exactly if an entry has it, and then shows what belongs to that
/// entry at `now`; a name that is being edited shows what it showed.
pub proof fn lemma_diff_brings_in_step(
    shown: Map<Seq<char>, RowData>,
    entries: Seq<EntryView>,
    rows: Seq<Seq<char>>,
    editing: Set<Seq<char>>,
    now: u64,
    name: Seq<char>,
)
    requires
        distinct_names(entries),
        forall|n: Seq<char>| shown.dom().contains(n) ==> rows.contains(n),
    ensures
        editing.contains(name) ==> same_at(
            after_ops(shown, diff_of(entries, rows, editing, now)),
            shown,
            name,
        ),
        !editing.contains(name) ==> (after_ops(
            shown,
            diff_of(entries, rows, editing, now),
        ).dom().contains(name) <==> has_name(entries, name)),
        !editing.contains(name) && has_name(entries, name) ==> after_ops(
            shown,
            diff_of(entries, rows, editing, now),
        )[name] == shown_for(entries[position(entries, name)].value, now),
{
    let written = after_ops(shown, upserts(entries, editing, now));
    lemma_after_ops_concat(
        shown,
        upserts(entries, editing, now),
        removals(rows, entries, editing),
    );
    lemma_upserts_shown(shown, entries, editing, now, name);
    lemma_removals_shown(written, rows, entries, editing, name);
}

} // verus!
