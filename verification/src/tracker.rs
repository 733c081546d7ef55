//! The references that a chapter has registered so far.

use vstd::prelude::*;
use crate::text::same_text;

verus! {

/// The labels of the blocks that can be referred to, by their identifier.
///
/// References are resolved in the order of the text: a reference finds
/// what was registered before it and nothing else.
#[derive(Debug, Clone)]
pub struct ReferenceTracker {
    entries: Vec<(String, String)>,
}

/// The map that a list of entries stands for: of two entries with one
/// key, the later one counts.
pub open spec fn entries_map(entries: Seq<(String, String)>) -> Map<Seq<char>, Seq<char>>
    decreases entries.len(),
{
    if entries.len() == 0 {
        Map::empty()
    } else {
        entries_map(entries.drop_last()).insert(entries.last().0@, entries.last().1@)
    }
}

/// The label of `key` in a list of entries: that of the last entry with
/// that key.
pub open spec fn lookup(entries: Seq<(String, String)>, key: Seq<char>) -> Option<Seq<char>>
    decreases entries.len(),
{
    if entries.len() == 0 {
        None
    } else if entries.last().0@ == key {
        Some(entries.last().1@)
    } else {
        lookup(entries.drop_last(), key)
    }
}

/// The map of a list of entries holds for each key what the lookup finds.
proof fn lemma_lookup(entries: Seq<(String, String)>, key: Seq<char>)
    ensures
        entries_map(entries).contains_key(key) <==> lookup(entries, key) is Some,
        lookup(entries, key) is Some ==> entries_map(entries)[key] == lookup(entries, key)->0,
    decreases entries.len(),
{
    if entries.len() > 0 {
        lemma_lookup(entries.drop_last(), key);
    }
}

impl View for ReferenceTracker {
    type V = Map<Seq<char>, Seq<char>>;

    closed spec fn view(&self) -> Map<Seq<char>, Seq<char>> {
        entries_map(self.entries@)
    }
}

impl Default for ReferenceTracker {
    fn default() -> (tracker: Self)
        ensures
            tracker@ == Map::<Seq<char>, Seq<char>>::empty(),
    {
        ReferenceTracker { entries: Vec::new() }
    }
}

impl ReferenceTracker {
    /// A tracker without any reference.
    pub fn new() -> (tracker: Self)
        ensures
            tracker@ == Map::<Seq<char>, Seq<char>>::empty(),
    {
        ReferenceTracker { entries: Vec::new() }
    }

    /// Registers `title` as the label of `key`, in place of any label that
    /// `key` had before.
    pub fn add(&mut self, key: &str, title: &str)
        ensures
            final(self)@ == old(self)@.insert(key@, title@),
    {
        let ghost before = self.entries@;
        self.entries.push((key.to_owned(), title.to_owned()));
        assert(self.entries@.drop_last() =~= before);
    }

    /// The label of `key`, where `key` has been registered.
    pub fn get(&self, key: &str) -> (title: Option<String>)
        ensures
            match title {
                Some(t) => self@.contains_key(key@) && self@[key@] == t@,
                None => !self@.contains_key(key@),
            },
    {
        let mut i: usize = self.entries.len();
        proof {
            lemma_lookup(self.entries@, key@);
            assert(self.entries@.subrange(0, i as int) =~= self.entries@);
        }
        while i > 0
            invariant
                i <= self.entries@.len(),
                lookup(self.entries@, key@) == lookup(self.entries@.subrange(0, i as int), key@),
            decreases i,
        {
            let entry = &self.entries[i - 1];
            let ghost head = self.entries@.subrange(0, i as int);
            assert(head.drop_last() =~= self.entries@.subrange(0, i - 1));
            assert(head.last() == self.entries@[i - 1]);
            if same_text(entry.0.as_str(), key) {
                proof {
                    lemma_lookup(self.entries@, key@);
                }
                return Some(entry.1.clone());
            }
            i -= 1;
        }
        proof {
            lemma_lookup(self.entries@, key@);
        }
        None
    }
}

} // verus!
