//! The word-count table: the executable counterpart of the model in
//! [`crate::counts`].

use crate::counts::{count_of, record, well_counted};
use vstd::hash_map::StringHashMap;
use vstd::prelude::*;

verus! {

/// A table from word to the number of times the word was recorded.
///
/// Words are case-sensitive and taken as they are; the empty word is a word.
/// Beside the counts the table keeps a list of its words, so that it can be
/// copied and listed.
pub struct WordCountTable {
    counts: StringHashMap<u64>,
    words: Vec<String>,
}

impl View for WordCountTable {
    type V = Map<Seq<char>, nat>;

    closed spec fn view(&self) -> Map<Seq<char>, nat> {
        self.counts@.map_values(|count: u64| count as nat)
    }
}

impl WordCountTable {
    /// The listed words, each as its sequence of characters.
    spec fn word_views(&self) -> Seq<Seq<char>> {
        self.words@.map_values(|word: String| word@)
    }

    /// The words listed are exactly those counted, none is listed twice, and
    /// no count is zero.
    #[verifier::type_invariant]
    spec fn inv(&self) -> bool {
        &&& self.word_views().no_duplicates()
        &&& self.word_views().to_set() =~= self.counts@.dom()
        &&& forall|word: Seq<char>| #[trigger]
            self.counts@.contains_key(word) ==> self.counts@[word] >= 1
    }

    /// What the invariant gives of the table that callers see.
    proof fn lemma_well_counted(&self)
        requires
            self.inv(),
        ensures
            well_counted(self@),
    {
        assert(self@.dom() =~= self.word_views().to_set());
    }

    /// The empty table.
    pub fn new() -> (table: Self)
        ensures
            table@ == Map::<Seq<char>, nat>::empty(),
            well_counted(table@),
    {
        WordCountTable { counts: StringHashMap::new(), words: Vec::new() }
    }

    /// The count of `word`, or `None` for a word that was never recorded.
    /// A count that is there is at least 1.
    pub fn get(&self, word: &str) -> (count: Option<u64>)
        ensures
            match count {
                Some(count) => self@.contains_key(word@) && self@[word@] == count && count >= 1,
                None => !self@.contains_key(word@),
            },
    {
        proof {
            use_type_invariant(self);
        }
        match self.counts.get(word) {
            Some(count) => Some(*count),
            None => None,
        }
    }

    /// The count of `word`: zero for a word that was never recorded.
    pub fn count(&self, word: &str) -> (count: u64)
        ensures
            count == count_of(self@, word@),
    {
        match self.get(word) {
            Some(count) => count,
            None => 0,
        }
    }

    /// Records one more occurrence of `word` and returns its new count.
    ///
    /// A count that stands at `u64::MAX` cannot grow: such a call is left out.
    pub fn increment(&mut self, word: String) -> (count: u64)
        requires
            count_of(old(self)@, word@) < u64::MAX,
        ensures
            final(self)@ == record(old(self)@, word@),
            count == count_of(old(self)@, word@) + 1,
            well_counted(final(self)@),
    {
        proof {
            use_type_invariant(&*self);
        }
        let mut taken = WordCountTable::new();
        std::mem::swap(self, &mut taken);
        let WordCountTable { mut counts, mut words } = taken;
        let ghost old_counts = counts@;
        let ghost old_words = words@.map_values(|word: String| word@);
        let count: u64 = match counts.get(word.as_str()) {
            Some(present) => *present + 1,
            None => {
                words.push(word.clone());
                1
            },
        };
        counts.insert(word, count);
        proof {
            if !old_counts.contains_key(word@) {
                let new_words = words@.map_values(|word: String| word@);
                assert(new_words =~= old_words.push(word@));
                old_words.lemma_push_to_set_commute(word@);
            }
        }
        *self = WordCountTable { counts, words };
        proof {
            self.lemma_well_counted();
        }
        count
    }

    /// The number of distinct words in the table.
    pub fn len(&self) -> (n: usize)
        ensures
            n == self@.len(),
            well_counted(self@),
    {
        proof {
            use_type_invariant(self);
            assert(self@.dom() =~= self.counts@.dom());
        }
        self.counts.len()
    }

    /// Whether no word was recorded yet.
    pub fn is_empty(&self) -> (empty: bool)
        ensures
            empty == (self@ == Map::<Seq<char>, nat>::empty()),
    {
        proof {
            use_type_invariant(self);
            assert(self@.dom() =~= self.counts@.dom());
            if self.counts@.len() == 0 {
                assert(self@ =~= Map::<Seq<char>, nat>::empty());
            }
        }
        self.counts.len() == 0
    }

    /// The words of the table with their counts, each word once.
    pub fn entries(&self) -> (entries: Vec<(String, u64)>)
        ensures
            entries@.len() == self@.len(),
            forall|i: int|
                0 <= i < entries@.len() ==> self@.contains_key(#[trigger] entries@[i].0@)
                    && self@[entries@[i].0@] == entries@[i].1 && entries@[i].1 >= 1,
            forall|i: int, j: int|
                0 <= i < j < entries@.len() ==> entries@[i].0@ != entries@[j].0@,
            forall|word: Seq<char>|
                self@.contains_key(word) ==> exists|i: int|
                    0 <= i < entries@.len() && #[trigger] entries@[i].0@ == word,
    {
        proof {
            use_type_invariant(self);
        }
        let mut entries: Vec<(String, u64)> = Vec::new();
        let mut i: usize = 0;
        while i < self.words.len()
            invariant
                self.inv(),
                i <= self.words@.len(),
                entries@.len() == i,
                forall|k: int|
                    0 <= k < i ==> (#[trigger] entries@[k]).0@ == self.word_views()[k]
                        && count_of(self@, self.word_views()[k]) == entries@[k].1,
            decreases self.words@.len() - i,
        {
            let word = self.words[i].clone();
            let count = self.count(word.as_str());
            entries.push((word, count));
            i += 1;
        }
        proof {
            let words = self.word_views();
            assert(self@.dom() =~= self.counts@.dom());
            words.unique_seq_to_set();
            assert forall|word: Seq<char>| self@.contains_key(word) implies exists|k: int|
                0 <= k < entries@.len() && #[trigger] entries@[k].0@ == word by {
                assert(words.to_set().contains(word));
                let k = choose|k: int| 0 <= k < words.len() && words[k] == word;
                assert(entries@[k].0@ == word);
            }
        }
        entries
    }
}

impl Clone for WordCountTable {
    /// A copy of the table: the same words with the same counts.
    fn clone(&self) -> (copy: Self)
        ensures
            copy@ == self@,
            well_counted(copy@),
    {
        proof {
            use_type_invariant(self);
            self.lemma_well_counted();
        }
        let mut counts: StringHashMap<u64> = StringHashMap::new();
        let mut words: Vec<String> = Vec::new();
        let mut i: usize = 0;
        while i < self.words.len()
            invariant
                self.inv(),
                i <= self.words@.len(),
                words@.map_values(|word: String| word@) =~= self.word_views().take(i as int),
                counts@ =~= self.counts@.restrict(self.word_views().take(i as int).to_set()),
            decreases self.words@.len() - i,
        {
            let word = self.words[i].clone();
            let count = self.count(word.as_str());
            proof {
                let listed = self.word_views();
                assert(listed[i as int] == word@);
                assert(listed.take(i + 1) =~= listed.take(i as int).push(word@));
                listed.take(i as int).lemma_push_to_set_commute(word@);
            }
            counts.insert(word.clone(), count);
            words.push(word);
            i += 1;
        }
        proof {
            let listed = self.word_views();
            assert(listed.take(i as int) =~= listed);
        }
        WordCountTable { counts, words }
    }
}

} // verus!
