//! The aggregator: the single owner of a word-count table, and the two
//! requests that it answers.
//!
//! Requests are handled one at a time, each on the table that the one before
//! left, so a snapshot shows exactly the recordings handled before it.

use crate::counts::{count_of, record, well_counted};
use crate::table::WordCountTable;
use vstd::prelude::*;

verus! {

/// The request to record one occurrence of the word that it carries.
pub struct AddWord(pub String);

/// The request for a copy of all counts.
pub struct GetCounts;

/// The owner of the word-count table. Nothing else changes the table.
pub struct WordCountAggregator {
    counts: WordCountTable,
}

impl View for WordCountAggregator {
    type V = Map<Seq<char>, nat>;

    closed spec fn view(&self) -> Map<Seq<char>, nat> {
        self.counts@
    }
}

impl WordCountAggregator {
    /// An aggregator with an empty table.
    pub fn new() -> (aggregator: Self)
        ensures
            aggregator@ == Map::<Seq<char>, nat>::empty(),
            well_counted(aggregator@),
    {
        WordCountAggregator { counts: WordCountTable::new() }
    }

    /// The count that the table holds for `word`: zero for a word that was
    /// never recorded.
    pub fn count(&self, word: &str) -> (count: u64)
        ensures
            count == count_of(self@, word@),
    {
        self.counts.count(word)
    }

    /// Handles an [`AddWord`]: records one occurrence of its word, which may
    /// be empty, and returns the new count of that word.
    ///
    /// A count that stands at `u64::MAX` cannot grow: such a request is left
    /// out.
    pub fn add_word(&mut self, message: AddWord) -> (count: u64)
        requires
            count_of(old(self)@, message.0@) < u64::MAX,
        ensures
            final(self)@ == record(old(self)@, message.0@),
            count == count_of(old(self)@, message.0@) + 1,
            well_counted(final(self)@),
    {
        let AddWord(word) = message;
        self.counts.increment(word)
    }

    /// Handles a [`GetCounts`]: returns a copy of the table as it stands and
    /// leaves the table as it is.
    pub fn get_counts(&self, _message: GetCounts) -> (table: WordCountTable)
        ensures
            table@ == self@,
            well_counted(table@),
    {
        self.counts.clone()
    }
}

/// Taking a snapshot changes nothing and can be repeated: two snapshots of
/// one aggregator with no recording between them hold the same table.
pub proof fn lemma_snapshot_idempotent(
    aggregator: WordCountAggregator,
    first: WordCountTable,
    second: WordCountTable,
)
    requires
        first@ == aggregator@,
        second@ == aggregator@,
    ensures
        first@ == second@,
{
}

/// A snapshot taken right after a word is recorded shows the count of that
/// word exactly 1 above what the snapshot taken right before showed, and the
/// count of every other word as it was.
pub proof fn lemma_snapshot_after_record(
    before: WordCountAggregator,
    prior: WordCountTable,
    word: Seq<char>,
    after: WordCountAggregator,
    next: WordCountTable,
)
    requires
        prior@ == before@,
        after@ == record(before@, word),
        next@ == after@,
    ensures
        count_of(next@, word) == count_of(prior@, word) + 1,
        forall|other: Seq<char>|
            other != word ==> #[trigger] count_of(next@, other) == count_of(prior@, other),
{
}

} // verus!
