//! The coordinator: the one owner of the store and of the editing set. A view
//! hands it commands, and gets back what became of each and the changes to
//! its rows. A periodic tick asks it for the changes alone.

use crate::app_state::{
    add_outcome, after_add, after_merge, after_rename, after_update, merge_outcome,
    rename_outcome, update_outcome, AppState, StoreError,
};
use crate::editing::EditingSet;
use crate::entry::{views, EntryView, TOTPEntry};
use crate::keyed::{
    lemma_mapping_lookup, lemma_mapping_names, mapping_of, position, with_item, with_items,
    without_name, Keyed,
};
use crate::reconciler::{diff, diff_of, op_views, shown_for, RowOp};
use crate::rows::{
    after_ops, lemma_diff_brings_in_step, row_names, rows_after_ops, same_at, ViewRows,
};
use crate::text::{same_text, texts};
use vstd::prelude::*;
use vstd::string::*;

verus! {

/// What a view asks of the coordinator.
#[derive(Debug, PartialEq, Eq)]
pub enum Command {
    /// Add an entry.
    Add { name: String, secret: String },
    /// Remove the entry of the name.
    Remove { name: String },
    /// Give the entry named `from` the name `to`; this ends its editing.
    Rename { from: String, to: String },
    /// Replace the secret of the entry of the name.
    UpdateSecret { name: String, secret: String },
    /// Take over a batch of entries read from elsewhere.
    Import { entries: Vec<TOTPEntry> },
    /// The entry of the name is now being renamed by hand.
    BeginEdit { name: String },
    /// The renaming by hand was given up.
    EndEdit { name: String },
}

/// A command as texts.
pub enum CommandView {
    Add { name: Seq<char>, secret: Seq<char> },
    Remove { name: Seq<char> },
    Rename { from: Seq<char>, to: Seq<char> },
    UpdateSecret { name: Seq<char>, secret: Seq<char> },
    Import { entries: Seq<EntryView> },
    BeginEdit { name: Seq<char> },
    EndEdit { name: Seq<char> },
}

impl View for Command {
    type V = CommandView;

    open spec fn view(&self) -> CommandView {
        match *self {
            Command::Add { name, secret } => CommandView::Add { name: name@, secret: secret@ },
            Command::Remove { name } => CommandView::Remove { name: name@ },
            Command::Rename { from, to } => CommandView::Rename { from: from@, to: to@ },
            Command::UpdateSecret { name, secret } => CommandView::UpdateSecret {
                name: name@,
                secret: secret@,
            },
            Command::Import { entries } => CommandView::Import { entries: views(entries@) },
            Command::BeginEdit { name } => CommandView::BeginEdit { name: name@ },
            Command::EndEdit { name } => CommandView::EndEdit { name: name@ },
        }
    }
}

/// What became of a command.
#[derive(Clone, Copy, Debug, PartialEq, Eq)]
pub enum Outcome {
    /// The store was written to, and is to be persisted.
    Applied,
    /// The store is as it was, and nothing is to be persisted.
    Unchanged,
    /// The command was rejected, and the store is as it was.
    Rejected(StoreError),
}

/// The answer to a command.
#[derive(Debug, PartialEq, Eq)]
pub struct Reply {
    /// What became of the command.
    pub outcome: Outcome,
    /// The changes that bring the rows of the view in step with the store.
    pub ops: Vec<RowOp>,
}

/// `Applied` for a change that was accepted, `Rejected` with its error for one
/// that was not.
pub open spec fn outcome_from(result: Result<(), StoreError>) -> Outcome {
    match result {
        Ok(_) => Outcome::Applied,
        Err(e) => Outcome::Rejected(e),
    }
}

/// What becomes of a command on a store with this mapping.
pub open spec fn outcome_of(m: Map<Seq<char>, Seq<char>>, command: CommandView) -> Outcome {
    match command {
        CommandView::Add { name, secret } => outcome_from(add_outcome(m, name, secret)),
        CommandView::Remove { name } => if m.dom().contains(name) {
            Outcome::Applied
        } else {
            Outcome::Unchanged
        },
        CommandView::Rename { from, to } => if from == to {
            Outcome::Unchanged
        } else {
            outcome_from(rename_outcome(m, from, to))
        },
        CommandView::UpdateSecret { name, secret } => outcome_from(update_outcome(m, name, secret)),
        CommandView::Import { entries } => outcome_from(merge_outcome(entries)),
        CommandView::BeginEdit { name } => if m.dom().contains(name) {
            Outcome::Unchanged
        } else {
            Outcome::Rejected(StoreError::NotFound)
        },
        CommandView::EndEdit { name } => Outcome::Unchanged,
    }
}

/// The mapping of the store after a command.
pub open spec fn store_after(m: Map<Seq<char>, Seq<char>>, command: CommandView) -> Map<
    Seq<char>,
    Seq<char>,
> {
    match command {
        CommandView::Add { name, secret } => after_add(m, name, secret),
        CommandView::Remove { name } => m.remove(name),
        CommandView::Rename { from, to } => after_rename(m, from, to),
        CommandView::UpdateSecret { name, secret } => after_update(m, name, secret),
        CommandView::Import { entries } => after_merge(m, entries),
        CommandView::BeginEdit { name } => m,
        CommandView::EndEdit { name } => m,
    }
}

/// The entries of the store after a command, in the order of the store: an
/// added entry stands at the end, a renamed or updated one in its place, and
/// an incoming one in the place of the entry of its name or at the end.
pub open spec fn listing_after(listing: Seq<EntryView>, command: CommandView) -> Seq<EntryView> {
    let m = mapping_of(listing);
    match command {
        CommandView::Add { name, secret } => if add_outcome(m, name, secret) is Ok {
            listing.push(Keyed { name, value: secret })
        } else {
            listing
        },
        CommandView::Remove { name } => without_name(listing, name),
        CommandView::Rename { from, to } => if to != from && rename_outcome(m, from, to) is Ok {
            listing.update(position(listing, from), Keyed { name: to, value: m[from] })
        } else {
            listing
        },
        CommandView::UpdateSecret { name, secret } => if update_outcome(m, name, secret) is Ok {
            with_item(listing, Keyed { name, value: secret })
        } else {
            listing
        },
        CommandView::Import { entries } => if merge_outcome(entries) is Ok {
            with_items(listing, entries)
        } else {
            listing
        },
        CommandView::BeginEdit { name } => listing,
        CommandView::EndEdit { name } => listing,
    }
}

/// The editing set after a command. A name enters it when its editing begins,
/// if an entry has it. It leaves when the editing is given up, when a rename
/// from it is accepted, and when its entry is removed.
pub open spec fn editing_after(
    m: Map<Seq<char>, Seq<char>>,
    editing: Set<Seq<char>>,
    command: CommandView,
) -> Set<Seq<char>> {
    match command {
        CommandView::Remove { name } => editing.remove(name),
        CommandView::Rename { from, to } => if rename_outcome(m, from, to) is Ok {
            editing.remove(from)
        } else {
            editing
        },
        CommandView::BeginEdit { name } => if m.dom().contains(name) {
            editing.insert(name)
        } else {
            editing
        },
        CommandView::EndEdit { name } => editing.remove(name),
        _ => editing,
    }
}

/// The owner of the store and of the editing set.
pub struct Coordinator {
    store: AppState,
    editing: EditingSet,
}

impl Coordinator {
    /// The entries of the store, in its order.
    pub closed spec fn listing(&self) -> Seq<EntryView> {
        self.store.listing()
    }

    /// The mapping of the store.
    pub open spec fn mapping(&self) -> Map<Seq<char>, Seq<char>> {
        mapping_of(self.listing())
    }

    /// The names that are being edited.
    pub closed spec fn editing(&self) -> Set<Seq<char>> {
        self.editing@
    }

    /// The invariant of the coordinator: that of its store.
    pub closed spec fn wf(&self) -> bool {
        self.store.wf()
    }

    /// A coordinator of the given store, with nothing being edited.
    pub fn new(store: AppState) -> (coordinator: Coordinator)
        requires
            store.wf(),
        ensures
            coordinator.wf(),
            coordinator.listing() == store.listing(),
            coordinator.editing() == Set::<Seq<char>>::empty(),
    {
        Coordinator { store, editing: EditingSet::new() }
    }

    /// A copy of the entries, for rendering or for export.
    pub fn snapshot(&self) -> (entries: Vec<TOTPEntry>)
        ensures
            views(entries@) == self.listing(),
            mapping_of(views(entries@)) == self.mapping(),
    {
        self.store.snapshot()
    }

    /// The secret kept under the name.
    pub fn secret_of(&self, name: &str) -> (secret: Option<String>)
        requires
            self.wf(),
        ensures
            secret is Some <==> self.mapping().dom().contains(name@),
            secret is Some ==> secret->0@ == self.mapping()[name@],
    {
        self.store.secret_of(name)
    }

    /// Whether the name is being edited.
    pub fn is_editing(&self, name: &str) -> (held: bool)
        ensures
            held == self.editing().contains(name@),
    {
        self.editing.contains(name)
    }

    /// The changes that bring the rows of a view, known by their names, in
    /// step with the store at `now`. The coordinator is not changed: asking
    /// twice in one second gives the same changes.
    pub fn tick(&self, rows: &Vec<String>, now: u64) -> (ops: Vec<RowOp>)
        ensures
            op_views(ops@) == diff_of(self.listing(), texts(rows@), self.editing(), now),
    {
        let entries = self.store.snapshot();
        diff(&entries, rows, &self.editing, now)
    }

    /// Brings the rows of a view in step with the store at `now`.
    ///
    /// Afterwards a name that is not being edited is shown exactly if an
    /// entry has it, and then shows the code and countdown of that entry; a
    /// name that is being edited shows what it showed.
    pub fn refresh(&self, shown: &mut ViewRows, now: u64)
        requires
            self.wf(),
            old(shown).wf(),
        ensures
            final(shown).wf(),
            final(shown).listing() == rows_after_ops(
                old(shown).listing(),
                diff_of(self.listing(), row_names(old(shown).listing()), self.editing(), now),
            ),
            final(shown)@ == after_ops(
                old(shown)@,
                diff_of(self.listing(), row_names(old(shown).listing()), self.editing(), now),
            ),
            forall|n: Seq<char>|
                !self.editing().contains(n) ==> (#[trigger] final(shown)@.dom().contains(n)
                    <==> self.mapping().dom().contains(n)),
            forall|n: Seq<char>|
                !self.editing().contains(n) && self.mapping().dom().contains(n) ==> (
                #[trigger] final(shown)@[n]) == shown_for(self.mapping()[n], now),
            forall|n: Seq<char>|
                self.editing().contains(n) ==> #[trigger] same_at(final(shown)@, old(shown)@, n),
    {
        let names = shown.names();
        let ops = self.tick(&names, now);
        shown.apply(&ops);
        proof {
            let before = old(shown)@;
            let entries = self.listing();
            let editing = self.editing();
            assert forall|n: Seq<char>| !editing.contains(n) implies (
            #[trigger] shown@.dom().contains(n) <==> self.mapping().dom().contains(n)) by {
                lemma_diff_brings_in_step(before, entries, texts(names@), editing, now, n);
                lemma_mapping_names(entries, n);
            }
            assert forall|n: Seq<char>|
                !editing.contains(n) && self.mapping().dom().contains(n) implies (
            #[trigger] shown@[n]) == shown_for(self.mapping()[n], now) by {
                lemma_diff_brings_in_step(before, entries, texts(names@), editing, now, n);
                lemma_mapping_names(entries, n);
                lemma_mapping_lookup(entries, position(entries, n));
            }
            assert forall|n: Seq<char>| editing.contains(n) implies #[trigger] same_at(
                shown@,
                before,
                n,
            ) by {
                lemma_diff_brings_in_step(before, entries, texts(names@), editing, now, n);
            }
        }
    }

    /// Carries out a command and answers with what became of it and with the
    /// changes to the rows of the view at `now`.
    pub fn handle(&mut self, command: Command, rows: &Vec<String>, now: u64) -> (reply: Reply)
        requires
            old(self).wf(),
        ensures
            final(self).wf(),
            reply.outcome == outcome_of(old(self).mapping(), command@),
            final(self).listing() == listing_after(old(self).listing(), command@),
            final(self).mapping() == store_after(old(self).mapping(), command@),
            final(self).editing() == editing_after(
                old(self).mapping(),
                old(self).editing(),
                command@,
            ),
            op_views(reply.ops@) == diff_of(
                final(self).listing(),
                texts(rows@),
                final(self).editing(),
                now,
            ),
    {
        let outcome = match command {
            Command::Add { name, secret } => match self.store.add(name, secret) {
                Ok(_) => Outcome::Applied,
                Err(e) => Outcome::Rejected(e),
            },
            Command::Remove { name } => {
                self.editing.release(name.as_str());
                if self.store.remove(name.as_str()) {
                    Outcome::Applied
                } else {
                    Outcome::Unchanged
                }
            },
            Command::Rename { from, to } => {
                let same = same_text(from.as_str(), to.as_str());
                match self.store.rename(from.as_str(), to) {
                    Ok(_) => {
                        self.editing.release(from.as_str());
                        if same {
                            Outcome::Unchanged
                        } else {
                            Outcome::Applied
                        }
                    },
                    Err(e) => Outcome::Rejected(e),
                }
            },
            Command::UpdateSecret { name, secret } => match self.store.update_secret(
                name.as_str(),
                secret,
            ) {
                Ok(_) => Outcome::Applied,
                Err(e) => Outcome::Rejected(e),
            },
            Command::Import { entries } => match self.store.merge(&entries) {
                Ok(_) => Outcome::Applied,
                Err(e) => Outcome::Rejected(e),
            },
            Command::BeginEdit { name } => {
                if self.store.contains(name.as_str()) {
                    self.editing.begin(name);
                    Outcome::Unchanged
                } else {
                    Outcome::Rejected(StoreError::NotFound)
                }
            },
            Command::EndEdit { name } => {
                self.editing.release(name.as_str());
                Outcome::Unchanged
            },
        };
        let ops = self.tick(rows, now);
        Reply { outcome, ops }
    }
}

/// A command that is not applied leaves the mapping of the store as it was:
/// whenever the store changes, the outcome says that it is to be persisted.
pub proof fn lemma_unapplied_keeps_store(m: Map<Seq<char>, Seq<char>>, command: CommandView)
    requires
        outcome_of(m, command) != Outcome::Applied,
    ensures
        store_after(m, command) == m,
{
}

} // verus!
