//! The credential store: a mapping from entry names to secrets, kept as a list
//! in which no name occurs twice.

pub use crate::entry::TOTPEntry;
use crate::entry::{all_entries_valid, all_valid, views, EntryView};
use crate::keyed::{
    distinct_names, has_name, lemma_mapping_last_wins, lemma_mapping_lookup, lemma_mapping_names,
    lemma_mapping_update, lemma_with_item, lemma_without_name, mapping_of, position, with_item,
    with_items, without_name, Keyed,
};
use crate::text::same_text;
use vstd::prelude::*;
use vstd::string::*;

verus! {

/// Why the store rejected a change.
#[derive(Clone, Copy, Debug, PartialEq, Eq)]
pub enum StoreError {
    /// The name is already taken by another entry.
    DuplicateName,
    /// No entry has the name.
    NotFound,
    /// A name or a secret is empty.
    InvalidEntry,
}

/// How [`AppState::add`] answers.
pub open spec fn add_outcome(
    m: Map<Seq<char>, Seq<char>>,
    name: Seq<char>,
    secret: Seq<char>,
) -> Result<(), StoreError> {
    if name.len() == 0 || secret.len() == 0 {
        Err(StoreError::InvalidEntry)
    } else if m.dom().contains(name) {
        Err(StoreError::DuplicateName)
    } else {
        Ok(())
    }
}

/// The mapping after [`AppState::add`].
pub open spec fn after_add(
    m: Map<Seq<char>, Seq<char>>,
    name: Seq<char>,
    secret: Seq<char>,
) -> Map<Seq<char>, Seq<char>> {
    if add_outcome(m, name, secret) is Ok {
        m.insert(name, secret)
    } else {
        m
    }
}

/// How [`AppState::rename`] answers.
pub open spec fn rename_outcome(
    m: Map<Seq<char>, Seq<char>>,
    from: Seq<char>,
    to: Seq<char>,
) -> Result<(), StoreError> {
    if to == from {
        Ok(())
    } else if to.len() == 0 {
        Err(StoreError::InvalidEntry)
    } else if m.dom().contains(to) {
        Err(StoreError::DuplicateName)
    } else if !m.dom().contains(from) {
        Err(StoreError::NotFound)
    } else {
        Ok(())
    }
}

/// The mapping after [`AppState::rename`].
pub open spec fn after_rename(
    m: Map<Seq<char>, Seq<char>>,
    from: Seq<char>,
    to: Seq<char>,
) -> Map<Seq<char>, Seq<char>> {
    if to != from && rename_outcome(m, from, to) is Ok {
        m.remove(from).insert(to, m[from])
    } else {
        m
    }
}

/// How [`AppState::update_secret`] answers.
pub open spec fn update_outcome(
    m: Map<Seq<char>, Seq<char>>,
    name: Seq<char>,
    secret: Seq<char>,
) -> Result<(), StoreError> {
    if secret.len() == 0 {
        Err(StoreError::InvalidEntry)
    } else if !m.dom().contains(name) {
        Err(StoreError::NotFound)
    } else {
        Ok(())
    }
}

/// The mapping after [`AppState::update_secret`].
pub open spec fn after_update(
    m: Map<Seq<char>, Seq<char>>,
    name: Seq<char>,
    secret: Seq<char>,
) -> Map<Seq<char>, Seq<char>> {
    if update_outcome(m, name, secret) is Ok {
        m.insert(name, secret)
    } else {
        m
    }
}

/// How [`AppState::merge`] answers.
pub open spec fn merge_outcome(incoming: Seq<EntryView>) -> Result<(), StoreError> {
    if all_valid(incoming) {
        Ok(())
    } else {
        Err(StoreError::InvalidEntry)
    }
}

/// The mapping after [`AppState::merge`]: an incoming entry overrides a kept
/// one of the same name, and a later incoming entry an earlier one.
pub open spec fn after_merge(
    m: Map<Seq<char>, Seq<char>>,
    incoming: Seq<EntryView>,
) -> Map<Seq<char>, Seq<char>> {
    if all_valid(incoming) {
        m.union_prefer_right(mapping_of(incoming))
    } else {
        m
    }
}

/// The credential store.
pub struct AppState {
    entries: Vec<TOTPEntry>,
}

impl View for AppState {
    type V = Map<Seq<char>, Seq<char>>;

    /// The mapping from names to secrets.
    open spec fn view(&self) -> Map<Seq<char>, Seq<char>> {
        mapping_of(self.listing())
    }
}

impl AppState {
    /// The entries in the order in which the store keeps them.
    pub closed spec fn listing(&self) -> Seq<EntryView> {
        views(self.entries@)
    }

    /// The invariant of the store: no name occurs twice, and no name and no
    /// secret is empty.
    pub open spec fn wf(&self) -> bool {
        distinct_names(self.listing()) && all_valid(self.listing())
    }

    /// An empty store.
    pub fn new() -> (store: AppState)
        ensures
            store.wf(),
            store.listing() == Seq::<EntryView>::empty(),
            store@ == Map::<Seq<char>, Seq<char>>::empty(),
    {
        AppState { entries: Vec::new() }
    }

    /// A store of the given entries, taken in order as by [`AppState::merge`].
    pub fn from_entries(entries: &Vec<TOTPEntry>) -> (r: Result<AppState, StoreError>)
        ensures
            r is Ok <==> all_valid(views(entries@)),
            r is Ok ==> r->Ok_0.wf() && r->Ok_0@ == mapping_of(views(entries@)),
            r is Ok ==> r->Ok_0.listing() == with_items(Seq::empty(), views(entries@)),
            r is Err ==> r->Err_0 == StoreError::InvalidEntry,
    {
        let mut store = AppState::new();
        match store.merge(entries) {
            Ok(()) => Ok(store),
            Err(e) => Err(e),
        }
    }

    /// The number of entries.
    pub fn len(&self) -> (n: usize)
        ensures
            n == self.listing().len(),
    {
        self.entries.len()
    }

    /// Whether the store has no entry.
    pub fn is_empty(&self) -> (empty: bool)
        ensures
            empty == (self.listing().len() == 0),
    {
        self.entries.len() == 0
    }

    fn find(&self, name: &str) -> (found: Option<usize>)
        ensures
            found is Some ==> found->0 < self.listing().len(),
            found is Some ==> self.listing()[found->0 as int].name == name@,
            found is Some <==> has_name(self.listing(), name@),
            found is Some <==> self@.dom().contains(name@),
    {
        let mut i: usize = 0;
        while i < self.entries.len()
            invariant
                i <= self.entries.len(),
                forall|j: int| 0 <= j < i ==> (#[trigger] self.listing()[j]).name != name@,
            decreases self.entries.len() - i,
        {
            if same_text(self.entries[i].name.as_str(), name) {
                proof {
                    assert(self.listing()[i as int].name == name@);
                    lemma_mapping_names(self.listing(), name@);
                }
                return Some(i);
            }
            i += 1;
        }
        proof {
            lemma_mapping_names(self.listing(), name@);
        }
        None
    }

    /// Whether an entry has the name.
    pub fn contains(&self, name: &str) -> (present: bool)
        ensures
            present == self@.dom().contains(name@),
    {
        self.find(name).is_some()
    }

    /// The secret kept under the name.
    pub fn secret_of(&self, name: &str) -> (secret: Option<String>)
        requires
            self.wf(),
        ensures
            secret is Some <==> self@.dom().contains(name@),
            secret is Some ==> secret->0@ == self@[name@],
    {
        match self.find(name) {
            Some(i) => {
                proof {
                    lemma_mapping_lookup(self.listing(), i as int);
                }
                Some(self.entries[i].secret.clone())
            },
            None => None,
        }
    }

    /// Adds an entry under a name that is not taken yet.
    ///
    /// An empty name or secret is rejected with [`StoreError::InvalidEntry`],
    /// a name that is taken with [`StoreError::DuplicateName`]; the store is
    /// then unchanged. Otherwise the entry is appended.
    pub fn add(&mut self, name: String, secret: String) -> (r: Result<(), StoreError>)
        requires
            old(self).wf(),
        ensures
            final(self).wf(),
            r == add_outcome(old(self)@, name@, secret@),
            final(self)@ == after_add(old(self)@, name@, secret@),
            r is Ok ==> final(self).listing() == old(self).listing().push(
                Keyed { name: name@, value: secret@ },
            ),
            r is Err ==> final(self).listing() == old(self).listing(),
    {
        if name.as_str().is_empty() || secret.as_str().is_empty() {
            return Err(StoreError::InvalidEntry);
        }
        if self.find(name.as_str()).is_some() {
            return Err(StoreError::DuplicateName);
        }
        let ghost before = self.listing();
        let entry = TOTPEntry { name, secret };
        self.entries.push(entry);
        proof {
            assert(self.listing() =~= before.push(entry@));
            lemma_with_item(before, entry@);
            assert forall|i: int| 0 <= i < self.listing().len() implies (
            #[trigger] self.listing()[i]).valid() by {}
        }
        Ok(())
    }

    /// Removes the entry of the name, if there is one, and says whether there
    /// was one. The other entries keep their order.
    pub fn remove(&mut self, name: &str) -> (removed: bool)
        requires
            old(self).wf(),
        ensures
            final(self).wf(),
            removed == old(self)@.dom().contains(name@),
            final(self)@ == old(self)@.remove(name@),
            final(self).listing() == without_name(old(self).listing(), name@),
    {
        let ghost before = self.listing();
        proof {
            lemma_without_name(before, name@);
        }
        match self.find(name) {
            Some(i) => {
                self.entries.remove(i);
                proof {
                    lemma_mapping_lookup(before, i as int);
                    assert(self.listing() =~= before.remove(i as int));
                    assert forall|j: int| 0 <= j < self.listing().len() implies (
                    #[trigger] self.listing()[j]).valid() by {}
                }
                true
            },
            None => false,
        }
    }

    /// Gives the entry named `from` the name `to`, keeping its secret and its
    /// place.
    ///
    /// Nothing changes where the two names are the same. Otherwise an empty
    /// `to` is rejected with [`StoreError::InvalidEntry`], a `to` that is
    /// taken with [`StoreError::DuplicateName`], and a `from` that no entry
    /// has with [`StoreError::NotFound`].
    pub fn rename(&mut self, from: &str, to: String) -> (r: Result<(), StoreError>)
        requires
            old(self).wf(),
        ensures
            final(self).wf(),
            r == rename_outcome(old(self)@, from@, to@),
            final(self)@ == after_rename(old(self)@, from@, to@),
            r is Ok && to@ != from@ ==> final(self).listing() == old(self).listing().update(
                position(old(self).listing(), from@),
                Keyed { name: to@, value: old(self)@[from@] },
            ),
            r is Err || to@ == from@ ==> final(self).listing() == old(self).listing(),
    {
        if same_text(to.as_str(), from) {
            return Ok(());
        }
        if to.as_str().is_empty() {
            return Err(StoreError::InvalidEntry);
        }
        if self.find(to.as_str()).is_some() {
            return Err(StoreError::DuplicateName);
        }
        match self.find(from) {
            Some(i) => {
                let ghost before = self.listing();
                let secret = self.entries[i].secret.clone();
                let entry = TOTPEntry { name: to, secret };
                proof {
                    lemma_mapping_names(before, entry@.name);
                    lemma_mapping_lookup(before, i as int);
                    lemma_mapping_update(before, i as int, entry@);
                }
                self.entries.set(i, entry);
                proof {
                    assert(self.listing() =~= before.update(i as int, entry@));
                    assert forall|j: int| 0 <= j < self.listing().len() implies (
                    #[trigger] self.listing()[j]).valid() by {}
                }
                Ok(())
            },
            None => Err(StoreError::NotFound),
        }
    }

    /// Replaces the secret of the entry of the name, in its place.
    ///
    /// An empty secret is rejected with [`StoreError::InvalidEntry`], a name
    /// that no entry has with [`StoreError::NotFound`].
    pub fn update_secret(&mut self, name: &str, secret: String) -> (r: Result<(), StoreError>)
        requires
            old(self).wf(),
        ensures
            final(self).wf(),
            r == update_outcome(old(self)@, name@, secret@),
            final(self)@ == after_update(old(self)@, name@, secret@),
            r is Ok ==> final(self).listing() == with_item(
                old(self).listing(),
                Keyed { name: name@, value: secret@ },
            ),
            r is Err ==> final(self).listing() == old(self).listing(),
    {
        if secret.as_str().is_empty() {
            return Err(StoreError::InvalidEntry);
        }
        match self.find(name) {
            Some(i) => {
                let kept = self.entries[i].name.clone();
                self.put_at(Some(i), TOTPEntry { name: kept, secret });
                Ok(())
            },
            None => Err(StoreError::NotFound),
        }
    }

    /// Puts a valid entry under its name, given the place where the name
    /// was found.
    fn put_at(&mut self, found: Option<usize>, entry: TOTPEntry)
        requires
            old(self).wf(),
            entry@.valid(),
            found is Some <==> has_name(old(self).listing(), entry@.name),
            found is Some ==> found->0 < old(self).listing().len(),
            found is Some ==> old(self).listing()[found->0 as int].name == entry@.name,
        ensures
            final(self).wf(),
            final(self).listing() == with_item(old(self).listing(), entry@),
            final(self)@ == old(self)@.insert(entry@.name, entry@.value),
    {
        let ghost before = self.listing();
        proof {
            lemma_with_item(before, entry@);
        }
        match found {
            Some(i) => {
                proof {
                    lemma_mapping_lookup(before, i as int);
                }
                self.entries.set(i, entry);
                assert(self.listing() =~= before.update(i as int, entry@));
            },
            None => {
                self.entries.push(entry);
                assert(self.listing() =~= before.push(entry@));
            },
        }
        assert forall|j: int| 0 <= j < self.listing().len() implies (
        #[trigger] self.listing()[j]).valid() by {}
    }

    /// Takes over every incoming entry, in order: one whose name is taken
    /// replaces the entry kept under it, in its place; another is appended.
    ///
    /// A batch that holds an empty name or secret is rejected as a whole with
    /// [`StoreError::InvalidEntry`], and the store is then unchanged.
    pub fn merge(&mut self, incoming: &Vec<TOTPEntry>) -> (r: Result<(), StoreError>)
        requires
            old(self).wf(),
        ensures
            final(self).wf(),
            r == merge_outcome(views(incoming@)),
            final(self)@ == after_merge(old(self)@, views(incoming@)),
            r is Ok ==> final(self).listing() == with_items(old(self).listing(), views(incoming@)),
            r is Err ==> final(self).listing() == old(self).listing(),
    {
        if !all_entries_valid(incoming) {
            return Err(StoreError::InvalidEntry);
        }
        let ghost before = self@;
        let ghost kept = self.listing();
        let ghost batch = views(incoming@);
        let mut k: usize = 0;
        while k < incoming.len()
            invariant
                k <= incoming.len(),
                batch == views(incoming@),
                all_valid(batch),
                self.wf(),
                self@ == before.union_prefer_right(mapping_of(batch.take(k as int))),
                self.listing() == with_items(kept, batch.take(k as int)),
            decreases incoming.len() - k,
        {
            let entry = incoming[k].clone();
            proof {
                assert(entry@ == batch[k as int]);
                assert(batch.take(k + 1).drop_last() =~= batch.take(k as int));
            }
            let found = self.find(entry.name.as_str());
            self.put_at(found, entry);
            k += 1;
        }
        assert(batch.take(k as int) =~= batch);
        Ok(())
    }

    /// A copy of the entries, in the order in which the store keeps them.
    pub fn snapshot(&self) -> (entries: Vec<TOTPEntry>)
        ensures
            views(entries@) == self.listing(),
            mapping_of(views(entries@)) == self@,
    {
        let mut copy: Vec<TOTPEntry> = Vec::new();
        let mut i: usize = 0;
        while i < self.entries.len()
            invariant
                i <= self.entries.len(),
                copy@.len() == i,
                forall|j: int| 0 <= j < i ==> (#[trigger] copy@[j])@ == self.entries@[j]@,
            decreases self.entries.len() - i,
        {
            copy.push(self.entries[i].clone());
            i += 1;
        }
        assert(views(copy@) =~= self.listing());
        copy
    }
}

/// Adding under a name twice: the second attempt is rejected because the
/// name is taken, and changes nothing, so the name keeps the secret it had
/// after the first.
pub proof fn lemma_second_add_rejected(
    m: Map<Seq<char>, Seq<char>>,
    name: Seq<char>,
    secret: Seq<char>,
    other: Seq<char>,
)
    requires
        name.len() > 0,
        secret.len() > 0,
        other.len() > 0,
    ensures
        add_outcome(after_add(m, name, secret), name, other) == Err::<(), StoreError>(
            StoreError::DuplicateName,
        ),
        after_add(after_add(m, name, secret), name, other) == after_add(m, name, secret),
        add_outcome(m, name, secret) is Ok ==> after_add(
            after_add(m, name, secret),
            name,
            other,
        )[name] == secret,
{
}

/// Renaming an entry and renaming it back restores the mapping, unless the
/// first name is free while the second is taken.
pub proof fn lemma_rename_round_trip(m: Map<Seq<char>, Seq<char>>, a: Seq<char>, b: Seq<char>)
    requires
        a.len() > 0,
        b.len() > 0,
        m.dom().contains(a) || !m.dom().contains(b),
    ensures
        after_rename(after_rename(m, a, b), b, a) == m,
{
}

/// After a merge, a name of the batch maps to the secret of its last entry
/// in the batch, whatever the store kept under it.
pub proof fn lemma_merge_last_write_wins(
    m: Map<Seq<char>, Seq<char>>,
    incoming: Seq<EntryView>,
    i: int,
)
    requires
        all_valid(incoming),
        0 <= i < incoming.len(),
        forall|j: int| i < j < incoming.len() ==> (#[trigger] incoming[j]).name != incoming[i].name,
    ensures
        after_merge(m, incoming).dom().contains(incoming[i].name),
        after_merge(m, incoming)[incoming[i].name] == incoming[i].value,
{
    lemma_mapping_last_wins(incoming, i);
}

/// After a merge, a name that the batch does not hold is kept as it was.
pub proof fn lemma_merge_keeps_other_names(
    m: Map<Seq<char>, Seq<char>>,
    incoming: Seq<EntryView>,
    name: Seq<char>,
)
    requires
        !has_name(incoming, name),
    ensures
        after_merge(m, incoming).dom().contains(name) <==> m.dom().contains(name),
        m.dom().contains(name) ==> after_merge(m, incoming)[name] == m[name],
{
    lemma_mapping_names(incoming, name);
}

/// A store built anew from the entries of a store holds the same mapping:
/// what a snapshot hands out to be persisted is enough to restore the store.
pub proof fn lemma_snapshot_restores(listing: Seq<EntryView>)
    requires
        all_valid(listing),
    ensures
        merge_outcome(listing) is Ok,
        after_merge(Map::empty(), listing) == mapping_of(listing),
{
}

} // verus!
