//! Entries of the credential store.

use crate::keyed::Keyed;
use vstd::prelude::*;
use vstd::string::*;

verus! {

/// A named shared secret.
#[derive(Debug, PartialEq, Eq)]
pub struct TOTPEntry {
    /// The name under which the entry is kept and shown.
    pub name: String,
    /// The secret as text, Base32 or raw.
    pub secret: String,
}

/// An entry as texts: its name, and as value its secret.
pub type EntryView = Keyed<Seq<char>>;

impl Keyed<Seq<char>> {
    /// An entry is valid when neither its name nor its secret is empty.
    pub open spec fn valid(self) -> bool {
        self.name.len() > 0 && self.value.len() > 0
    }
}

impl View for TOTPEntry {
    type V = EntryView;

    open spec fn view(&self) -> EntryView {
        Keyed { name: self.name@, value: self.secret@ }
    }
}

impl Clone for TOTPEntry {
    fn clone(&self) -> (copy: Self)
        ensures
            copy == *self,
    {
        TOTPEntry { name: self.name.clone(), secret: self.secret.clone() }
    }
}

impl TOTPEntry {
    /// An entry of the given name and secret.
    pub fn new(name: String, secret: String) -> (entry: TOTPEntry)
        ensures
            entry.name == name,
            entry.secret == secret,
    {
        TOTPEntry { name, secret }
    }

    /// Whether neither the name nor the secret is empty.
    pub fn is_valid(&self) -> (valid: bool)
        ensures
            valid == self@.valid(),
    {
        !self.name.as_str().is_empty() && !self.secret.as_str().is_empty()
    }
}

/// The entries of a list, each as a pair of texts.
pub open spec fn views(entries: Seq<TOTPEntry>) -> Seq<EntryView> {
    entries.map_values(|e: TOTPEntry| e@)
}

/// Whether every entry of the list is valid.
pub open spec fn all_valid(listing: Seq<EntryView>) -> bool {
    forall|i: int| 0 <= i < listing.len() ==> (#[trigger] listing[i]).valid()
}

/// Whether every entry of the list is valid.
pub fn all_entries_valid(entries: &Vec<TOTPEntry>) -> (valid: bool)
    ensures
        valid == all_valid(views(entries@)),
{
    let mut i: usize = 0;
    while i < entries.len()
        invariant
            i <= entries.len(),
            forall|j: int| 0 <= j < i ==> (#[trigger] views(entries@)[j]).valid(),
        decreases entries.len() - i,
    {
        if !entries[i].is_valid() {
            assert(!views(entries@)[i as int].valid());
            return false;
        }
        i += 1;
    }
    true
}

} // verus!
