//! The names that are being renamed by hand and must not be redrawn meanwhile.

use crate::text::{holds_text, same_text, texts};
use vstd::prelude::*;
use vstd::string::*;

verus! {

/// The set of entry names under interactive rename.
pub struct EditingSet {
    names: Vec<String>,
}

impl View for EditingSet {
    type V = Set<Seq<char>>;

    closed spec fn view(&self) -> Set<Seq<char>> {
        texts(self.names@).to_set()
    }
}

impl EditingSet {
    /// The empty set.
    pub fn new() -> (set: EditingSet)
        ensures
            set@ == Set::<Seq<char>>::empty(),
    {
        EditingSet { names: Vec::new() }
    }

    /// Whether the name is being edited.
    pub fn contains(&self, name: &str) -> (held: bool)
        ensures
            held == self@.contains(name@),
    {
        holds_text(&self.names, name)
    }

    /// Marks the name as being edited.
    pub fn begin(&mut self, name: String)
        ensures
            final(self)@ == old(self)@.insert(name@),
    {
        if !holds_text(&self.names, name.as_str()) {
            let ghost before = texts(self.names@);
            self.names.push(name);
            proof {
                assert(texts(self.names@) =~= before.push(name@));
                before.lemma_push_to_set_commute(name@);
            }
        }
    }

    /// Releases the name: it is no longer being edited.
    pub fn release(&mut self, name: &str)
        ensures
            final(self)@ == old(self)@.remove(name@),
    {
        let mut kept: Vec<String> = Vec::new();
        let mut i: usize = 0;
        while i < self.names.len()
            invariant
                i <= self.names.len(),
                texts(kept@).to_set() == texts(self.names@).take(i as int).to_set().remove(name@),
            decreases self.names.len() - i,
        {
            let ghost seen = texts(self.names@).take(i as int);
            let ghost kept_before = texts(kept@);
            let ghost current = self.names@[i as int]@;
            proof {
                assert(texts(self.names@).take(i + 1) =~= seen.push(current));
                seen.lemma_push_to_set_commute(current);
            }
            if !same_text(self.names[i].as_str(), name) {
                kept.push(self.names[i].clone());
                proof {
                    assert(texts(kept@) =~= kept_before.push(current));
                    kept_before.lemma_push_to_set_commute(current);
                }
            }
            i += 1;
        }
        proof {
            assert(texts(self.names@).take(i as int) =~= texts(self.names@));
        }
        self.names = kept;
    }
}

} // verus!
